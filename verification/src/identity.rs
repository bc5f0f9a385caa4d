//! Who a human is, beyond their needs: [`Identity`], a name and a gender
//! rolled once at spawn. The gender is rolled independently of the name.

use vstd::prelude::*;

use fake::Fake;
use fake::faker::name::en::{FirstName, LastName};
use rand::rngs::SmallRng;
use rand::RngExt;

verus! {

/// Two genders, each as likely as the other at spawn.
#[derive(Clone, Copy, PartialEq, Eq, Structural, Debug)]
pub enum Gender {
    Male,
    Female,
}

/// `rng.random::<bool>()`: a fair coin from the generator. Which way it
/// lands is the generator's business, and nothing is claimed of it.
#[verifier::external_body]
fn coin(rng: &mut SmallRng) -> bool {
    rng.random()
}

/// `FirstName().fake_with_rng(rng)`: a first name drawn from `fake`'s
/// English list. Which one is not claimed; every name on the list is a
/// single word of at least one letter.
#[verifier::external_body]
fn first_name(rng: &mut SmallRng) -> (name: String)
    ensures
        is_name_part(name@),
{
    FirstName().fake_with_rng(rng)
}

/// `LastName().fake_with_rng(rng)`: a last name drawn from `fake`'s English
/// list. Which one is not claimed; every name on the list is a single word
/// of at least one letter.
#[verifier::external_body]
fn last_name(rng: &mut SmallRng) -> (name: String)
    ensures
        is_name_part(name@),
{
    LastName().fake_with_rng(rng)
}

/// One part of a name: not empty, and no space in it.
pub open spec fn is_name_part(part: Seq<char>) -> bool {
    part.len() > 0 && !part.contains(' ')
}

/// A full name: a first name, one space, and a last name.
pub open spec fn is_full_name(name: Seq<char>) -> bool {
    exists|first: Seq<char>, last: Seq<char>|
        #![trigger is_name_part(first), is_name_part(last)]
        is_name_part(first) && is_name_part(last) && name == first + seq![' '] + last
}

pub open spec fn spec_gender_label(g: Gender) -> Seq<char> {
    match g {
        Gender::Male => seq!['m', 'a', 'l', 'e'],
        Gender::Female => seq!['f', 'e', 'm', 'a', 'l', 'e'],
    }
}

/// The gender a coin that came up `heads` gives: heads is male, tails
/// female.
pub open spec fn spec_gender_of(heads: bool) -> Gender {
    if heads {
        Gender::Male
    } else {
        Gender::Female
    }
}

impl Gender {
    /// The gender a coin that came up `heads` gives; see [`spec_gender_of`].
    pub fn gender_of(heads: bool) -> (g: Gender)
        ensures
            g == spec_gender_of(heads),
    {
        if heads {
            Gender::Male
        } else {
            Gender::Female
        }
    }

    /// A fair coin, tossed: whichever way it lands, the gender is
    /// [`Gender::gender_of`] it.
    pub fn random(rng: &mut SmallRng) -> (g: Gender)
        ensures
            exists|heads: bool| g == spec_gender_of(heads),
    {
        let heads = coin(rng);
        Gender::gender_of(heads)
    }

    pub fn label(&self) -> (s: &'static str)
        ensures
            s@ == spec_gender_label(*self),
    {
        match self {
            Gender::Male => {
                proof {
                    reveal_strlit("male");
                }
                "male"
            },
            Gender::Female => {
                proof {
                    reveal_strlit("female");
                }
                "female"
            },
        }
    }
}

/// A person's name and gender, rolled once at spawn.
#[derive(Clone, PartialEq, Debug)]
pub struct Identity {
    name: String,
    gender: Gender,
}

impl Identity {
    pub closed spec fn spec_name(&self) -> Seq<char> {
        self.name@
    }

    pub closed spec fn spec_gender(&self) -> Gender {
        self.gender
    }

    /// The person called `first`, a space and `last`, of `gender`.
    pub fn from_parts(first: &str, last: &str, gender: Gender) -> (identity: Identity)
        ensures
            identity.spec_name() == first@ + seq![' '] + last@,
            identity.spec_gender() == gender,
    {
        let mut name = String::from_str(first);
        let space = " ";
        proof {
            reveal_strlit(" ");
        }
        name.append(space);
        name.append(last);
        Identity { name, gender }
    }

    /// A first name, a space and a last name — both drawn first, the gender
    /// after. Each name is a single word of at least one letter, so the
    /// whole has exactly one space, between the two.
    pub fn random(rng: &mut SmallRng) -> (identity: Identity)
        ensures
            is_full_name(identity.spec_name()),
    {
        let first = first_name(rng);
        let last = last_name(rng);
        let gender = Gender::random(rng);
        let identity = Identity::from_parts(first.as_str(), last.as_str(), gender);
        proof {
            assert(is_name_part(first@) && is_name_part(last@));
        }
        identity
    }

    pub fn name(&self) -> (s: &str)
        ensures
            s@ == self.spec_name(),
    {
        self.name.as_str()
    }

    pub fn gender(&self) -> (g: Gender)
        ensures
            g == self.spec_gender(),
    {
        self.gender
    }
}

} // verus!
