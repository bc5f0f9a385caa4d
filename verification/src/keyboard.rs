//! Typing a map name, from a physical keyboard or from on-screen keys.
//!
//! Both devices write into one [`TextEntry`]: a name that only ever holds as
//! many characters as a map name may have, and only the characters a map name
//! may contain when they are typed one at a time.

use vstd::prelude::*;

use crate::map::MAX_NAME;

verus! {

/// A character a map name may contain: an ASCII letter or digit, a space, a
/// hyphen or an underscore.
pub open spec fn is_name_char(c: char) -> bool {
    ||| ('a' as u32 <= c as u32 <= 'z' as u32)
    ||| ('A' as u32 <= c as u32 <= 'Z' as u32)
    ||| ('0' as u32 <= c as u32 <= '9' as u32)
    ||| c == ' '
    ||| c == '-'
    ||| c == '_'
}

/// `text` cut down to the first [`MAX_NAME`] characters.
pub open spec fn clipped(text: Seq<char>) -> Seq<char> {
    if text.len() <= MAX_NAME {
        text
    } else {
        text.subrange(0, MAX_NAME as int)
    }
}

/// The name after typing `c` into `text`: appended when it is a name
/// character and the name has room for it, otherwise unchanged.
pub open spec fn typed_char(text: Seq<char>, c: char) -> Seq<char> {
    if is_name_char(c) && text.len() < MAX_NAME {
        text.push(c)
    } else {
        text
    }
}

/// The name after typing every character of `input`, in order.
pub open spec fn typed(text: Seq<char>, input: Seq<char>) -> Seq<char>
    decreases input.len(),
{
    if input.len() == 0 {
        text
    } else {
        typed_char(typed(text, input.drop_last()), input.last())
    }
}

/// The name after one backspace: the last character gone, if there was one.
pub open spec fn backspaced(text: Seq<char>) -> Seq<char> {
    if text.len() == 0 {
        text
    } else {
        text.drop_last()
    }
}

/// What the field shows: the name and a caret while typing, a prompt when it
/// is empty and nobody is typing, and otherwise just the name.
pub open spec fn shown(text: Seq<char>, open: bool) -> Seq<char> {
    if open {
        text + "_"@
    } else if text.len() == 0 {
        "new map..."@
    } else {
        text
    }
}

/// `String::push`: appends `c` at the end of `s`.
#[verifier::external_body]
fn push_char(s: &mut String, c: char)
    ensures
        final(s)@ == old(s)@.push(c),
{
    s.push(c);
}

fn is_name_char_exec(c: char) -> (b: bool)
    ensures
        b == is_name_char(c),
{
    let n = c as u32;
    ('a' as u32 <= n && n <= 'z' as u32) || ('A' as u32 <= n && n <= 'Z' as u32) || ('0' as u32
        <= n && n <= '9' as u32) || c == ' ' || c == '-' || c == '_'
}

/// What a key on the on-screen keyboard does.
#[derive(Clone, Copy, PartialEq, Eq, Structural, Debug)]
pub enum KeyCap {
    Char(char),
    Backspace,
    Done,
}

/// The rows of character keys on the on-screen keyboard, in alphabetical
/// order: faster to scan with a d-pad than a QWERTY layout.
pub fn key_rows() -> (rows: [&'static str; 4])
    ensures
        rows@[0]@ == "abcdefghij"@,
        rows@[1]@ == "klmnopqrst"@,
        rows@[2]@ == "uvwxyz0123"@,
        rows@[3]@ == "456789 -_"@,
{
    ["abcdefghij", "klmnopqrst", "uvwxyz0123", "456789 -_"]
}

/// The characters on the on-screen keyboard's `row`, as [`key_rows`] lays
/// them out.
pub open spec fn key_row(row: int) -> Seq<char> {
    if row == 0 {
        "abcdefghij"@
    } else if row == 1 {
        "klmnopqrst"@
    } else if row == 2 {
        "uvwxyz0123"@
    } else {
        "456789 -_"@
    }
}

/// Every key on the on-screen keyboard types its character into a name that
/// has room for it — the space, the hyphen and the underscore included — so
/// no key on screen is dead.
pub proof fn lemma_every_key_types(text: Seq<char>, row: int, i: int)
    requires
        0 <= row < 4,
        0 <= i < key_row(row).len(),
        text.len() < MAX_NAME,
    ensures
        typed_char(text, key_row(row)[i]) == text.push(key_row(row)[i]),
        typed(text, seq![key_row(row)[i]]) == text.push(key_row(row)[i]),
{
    reveal_strlit("abcdefghij");
    reveal_strlit("klmnopqrst");
    reveal_strlit("uvwxyz0123");
    reveal_strlit("456789 -_");
    let c = key_row(row)[i];
    if row == 0 {
        assert(key_row(0) =~= seq!['a', 'b', 'c', 'd', 'e', 'f', 'g', 'h', 'i', 'j']);
    } else if row == 1 {
        assert(key_row(1) =~= seq!['k', 'l', 'm', 'n', 'o', 'p', 'q', 'r', 's', 't']);
    } else if row == 2 {
        assert(key_row(2) =~= seq!['u', 'v', 'w', 'x', 'y', 'z', '0', '1', '2', '3']);
    } else {
        assert(key_row(3) =~= seq!['4', '5', '6', '7', '8', '9', ' ', '-', '_']);
    }
    assert(is_name_char(c));
    assert(seq![c].drop_last() =~= Seq::<char>::empty());
    assert(seq![c].last() == c);
    reveal_with_fuel(typed, 2);
    assert(typed(text, seq![c].drop_last()) == text);
}

/// Typing the hyphen, the underscore or the space into a name with room
/// keeps it: a name such as "west-wing" is typed as it is spelt.
pub proof fn lemma_separators_are_typed(text: Seq<char>)
    requires
        text.len() < MAX_NAME,
    ensures
        typed_char(text, '-') == text.push('-'),
        typed_char(text, '_') == text.push('_'),
        typed_char(text, ' ') == text.push(' '),
{
}

/// Only what the on-screen keys carry ever gets into a name, a letter
/// either way up: a character typed from a physical keyboard that no key
/// carries, in either case, is left out.
pub proof fn lemma_only_keys_type(text: Seq<char>, c: char)
    ensures
        typed_char(text, c) != text ==> exists|row: int, i: int|
            0 <= row < 4 && 0 <= i < key_row(row).len() && (#[trigger] key_row(row)[i] == c || key_row(row)[i]
                as u32 == c as u32 + 32),
{
    reveal_strlit("abcdefghij");
    reveal_strlit("klmnopqrst");
    reveal_strlit("uvwxyz0123");
    reveal_strlit("456789 -_");
    assert(key_row(0) =~= seq!['a', 'b', 'c', 'd', 'e', 'f', 'g', 'h', 'i', 'j']);
    assert(key_row(1) =~= seq!['k', 'l', 'm', 'n', 'o', 'p', 'q', 'r', 's', 't']);
    assert(key_row(2) =~= seq!['u', 'v', 'w', 'x', 'y', 'z', '0', '1', '2', '3']);
    assert(key_row(3) =~= seq!['4', '5', '6', '7', '8', '9', ' ', '-', '_']);
    assert('a' as u32 == 97 && 'z' as u32 == 122 && 'A' as u32 == 65 && 'Z' as u32 == 90 && '0' as u32 == 48
        && '9' as u32 == 57 && ' ' as u32 == 32 && '-' as u32 == 45 && '_' as u32 == 95);
    if typed_char(text, c) != text {
        if c as u32 == 97 {
            assert(key_row(0)[0] == c);
        } else if c as u32 == 65 {
            assert(key_row(0)[0] as u32 == c as u32 + 32);
        } else if c as u32 == 98 {
            assert(key_row(0)[1] == c);
        } else if c as u32 == 66 {
            assert(key_row(0)[1] as u32 == c as u32 + 32);
        } else if c as u32 == 99 {
            assert(key_row(0)[2] == c);
        } else if c as u32 == 67 {
            assert(key_row(0)[2] as u32 == c as u32 + 32);
        } else if c as u32 == 100 {
            assert(key_row(0)[3] == c);
        } else if c as u32 == 68 {
            assert(key_row(0)[3] as u32 == c as u32 + 32);
        } else if c as u32 == 101 {
            assert(key_row(0)[4] == c);
        } else if c as u32 == 69 {
            assert(key_row(0)[4] as u32 == c as u32 + 32);
        } else if c as u32 == 102 {
            assert(key_row(0)[5] == c);
        } else if c as u32 == 70 {
            assert(key_row(0)[5] as u32 == c as u32 + 32);
        } else if c as u32 == 103 {
            assert(key_row(0)[6] == c);
        } else if c as u32 == 71 {
            assert(key_row(0)[6] as u32 == c as u32 + 32);
        } else if c as u32 == 104 {
            assert(key_row(0)[7] == c);
        } else if c as u32 == 72 {
            assert(key_row(0)[7] as u32 == c as u32 + 32);
        } else if c as u32 == 105 {
            assert(key_row(0)[8] == c);
        } else if c as u32 == 73 {
            assert(key_row(0)[8] as u32 == c as u32 + 32);
        } else if c as u32 == 106 {
            assert(key_row(0)[9] == c);
        } else if c as u32 == 74 {
            assert(key_row(0)[9] as u32 == c as u32 + 32);
        } else if c as u32 == 107 {
            assert(key_row(1)[0] == c);
        } else if c as u32 == 75 {
            assert(key_row(1)[0] as u32 == c as u32 + 32);
        } else if c as u32 == 108 {
            assert(key_row(1)[1] == c);
        } else if c as u32 == 76 {
            assert(key_row(1)[1] as u32 == c as u32 + 32);
        } else if c as u32 == 109 {
            assert(key_row(1)[2] == c);
        } else if c as u32 == 77 {
            assert(key_row(1)[2] as u32 == c as u32 + 32);
        } else if c as u32 == 110 {
            assert(key_row(1)[3] == c);
        } else if c as u32 == 78 {
            assert(key_row(1)[3] as u32 == c as u32 + 32);
        } else if c as u32 == 111 {
            assert(key_row(1)[4] == c);
        } else if c as u32 == 79 {
            assert(key_row(1)[4] as u32 == c as u32 + 32);
        } else if c as u32 == 112 {
            assert(key_row(1)[5] == c);
        } else if c as u32 == 80 {
            assert(key_row(1)[5] as u32 == c as u32 + 32);
        } else if c as u32 == 113 {
            assert(key_row(1)[6] == c);
        } else if c as u32 == 81 {
            assert(key_row(1)[6] as u32 == c as u32 + 32);
        } else if c as u32 == 114 {
            assert(key_row(1)[7] == c);
        } else if c as u32 == 82 {
            assert(key_row(1)[7] as u32 == c as u32 + 32);
        } else if c as u32 == 115 {
            assert(key_row(1)[8] == c);
        } else if c as u32 == 83 {
            assert(key_row(1)[8] as u32 == c as u32 + 32);
        } else if c as u32 == 116 {
            assert(key_row(1)[9] == c);
        } else if c as u32 == 84 {
            assert(key_row(1)[9] as u32 == c as u32 + 32);
        } else if c as u32 == 117 {
            assert(key_row(2)[0] == c);
        } else if c as u32 == 85 {
            assert(key_row(2)[0] as u32 == c as u32 + 32);
        } else if c as u32 == 118 {
            assert(key_row(2)[1] == c);
        } else if c as u32 == 86 {
            assert(key_row(2)[1] as u32 == c as u32 + 32);
        } else if c as u32 == 119 {
            assert(key_row(2)[2] == c);
        } else if c as u32 == 87 {
            assert(key_row(2)[2] as u32 == c as u32 + 32);
        } else if c as u32 == 120 {
            assert(key_row(2)[3] == c);
        } else if c as u32 == 88 {
            assert(key_row(2)[3] as u32 == c as u32 + 32);
        } else if c as u32 == 121 {
            assert(key_row(2)[4] == c);
        } else if c as u32 == 89 {
            assert(key_row(2)[4] as u32 == c as u32 + 32);
        } else if c as u32 == 122 {
            assert(key_row(2)[5] == c);
        } else if c as u32 == 90 {
            assert(key_row(2)[5] as u32 == c as u32 + 32);
        } else if c as u32 == 48 {
            assert(key_row(2)[6] == c);
        } else if c as u32 == 49 {
            assert(key_row(2)[7] == c);
        } else if c as u32 == 50 {
            assert(key_row(2)[8] == c);
        } else if c as u32 == 51 {
            assert(key_row(2)[9] == c);
        } else if c as u32 == 52 {
            assert(key_row(3)[0] == c);
        } else if c as u32 == 53 {
            assert(key_row(3)[1] == c);
        } else if c as u32 == 54 {
            assert(key_row(3)[2] == c);
        } else if c as u32 == 55 {
            assert(key_row(3)[3] == c);
        } else if c as u32 == 56 {
            assert(key_row(3)[4] == c);
        } else if c as u32 == 57 {
            assert(key_row(3)[5] == c);
        } else if c as u32 == 32 {
            assert(key_row(3)[6] == c);
        } else if c as u32 == 45 {
            assert(key_row(3)[7] == c);
        } else if c as u32 == 95 {
            assert(key_row(3)[8] == c);
        } else {
            assert(false);
        }
    }
}

/// A backspace takes back the character just typed: whatever was typed
/// into a name, one backspace after a character that went in gives the name
/// back as it was, and a backspace removes exactly the last character of a
/// name that has one and leaves an empty one empty.
pub proof fn lemma_backspace_undoes_typing(text: Seq<char>, c: char)
    ensures
        typed_char(text, c) != text ==> backspaced(typed_char(text, c)) == text,
        text.len() > 0 ==> backspaced(text).len() == text.len() - 1 && backspaced(text) == text.take(
            text.len() - 1,
        ),
        text.len() == 0 ==> backspaced(text) == text,
{
    if typed_char(text, c) != text {
        assert(text.push(c).drop_last() =~= text);
    }
    if text.len() > 0 {
        assert(text.drop_last() =~= text.take(text.len() - 1));
    }
}

/// The name being typed, shared by every device that can type it.
pub struct TextEntry {
    text: String,
    /// Whether typing is being accepted: the on-screen keyboard is open.
    open: bool,
}

impl TextEntry {
    /// Never longer than a map name may be.
    pub closed spec fn wf(&self) -> bool {
        self.text@.len() <= MAX_NAME
    }

    pub closed spec fn spec_text(&self) -> Seq<char> {
        self.text@
    }

    pub closed spec fn spec_open(&self) -> bool {
        self.open
    }

    /// An empty name, with the keyboard closed.
    pub fn new() -> (e: TextEntry)
        ensures
            e.wf(),
            e.spec_text() == Seq::<char>::empty(),
            !e.spec_open(),
    {
        TextEntry { text: String::new(), open: false }
    }

    /// The name as typed so far.
    pub fn text(&self) -> (s: &str)
        ensures
            s@ == self.spec_text(),
    {
        self.text.as_str()
    }

    /// Whether typing is being accepted.
    pub fn is_open(&self) -> (b: bool)
        ensures
            b == self.spec_open(),
    {
        self.open
    }

    /// Replace the whole name, cut to the longest a name may be.
    pub fn set(&mut self, text: &str)
        ensures
            final(self).wf(),
            final(self).spec_text() == clipped(text@),
            final(self).spec_open() == old(self).spec_open(),
    {
        let n = text.unicode_len();
        let kept = if n > MAX_NAME {
            text.substring_char(0, MAX_NAME)
        } else {
            text
        };
        self.text = String::from_str(kept);
    }

    pub fn open(&mut self)
        ensures
            final(self).spec_open(),
            final(self).spec_text() == old(self).spec_text(),
            final(self).wf() == old(self).wf(),
    {
        self.open = true;
    }

    pub fn close(&mut self)
        ensures
            !final(self).spec_open(),
            final(self).spec_text() == old(self).spec_text(),
            final(self).wf() == old(self).wf(),
    {
        self.open = false;
    }

    /// Forget the name.
    pub fn clear(&mut self)
        ensures
            final(self).wf(),
            final(self).spec_text() == Seq::<char>::empty(),
            final(self).spec_open() == old(self).spec_open(),
    {
        self.text = String::new();
    }

    /// Type one character. Only what a map name may contain is taken, and
    /// nothing past the longest a name may be, so the field never shows a
    /// name that saving would refuse or change.
    pub fn push(&mut self, c: char)
        requires
            old(self).wf(),
        ensures
            final(self).wf(),
            final(self).spec_text() == typed_char(old(self).spec_text(), c),
            final(self).spec_open() == old(self).spec_open(),
    {
        if is_name_char_exec(c) && self.text.as_str().unicode_len() < MAX_NAME {
            push_char(&mut self.text, c);
        }
    }

    /// Type every character of `input`, in order, as a keyboard would.
    pub fn type_text(&mut self, input: &str)
        requires
            old(self).wf(),
        ensures
            final(self).wf(),
            final(self).spec_text() == typed(old(self).spec_text(), input@),
            final(self).spec_open() == old(self).spec_open(),
    {
        let n = input.unicode_len();
        let mut i: usize = 0;
        while i < n
            invariant
                n == input@.len(),
                i <= n,
                self.wf(),
                self.spec_text() == typed(old(self).spec_text(), input@.take(i as int)),
                self.spec_open() == old(self).spec_open(),
            decreases n - i,
        {
            let c = input.get_char(i);
            self.push(c);
            proof {
                let next = input@.take(i + 1);
                assert(next.drop_last() =~= input@.take(i as int));
                assert(next.last() == c);
            }
            i = i + 1;
        }
        proof {
            assert(input@.take(n as int) =~= input@);
        }
    }

    /// Take back the last character; an empty name stays empty.
    pub fn backspace(&mut self)
        requires
            old(self).wf(),
        ensures
            final(self).wf(),
            final(self).spec_text() == backspaced(old(self).spec_text()),
            final(self).spec_open() == old(self).spec_open(),
    {
        let n = self.text.as_str().unicode_len();
        if n > 0 {
            let kept = String::from_str(self.text.as_str().substring_char(0, n - 1));
            self.text = kept;
            proof {
                assert(self.text@ =~= old(self).text@.drop_last());
            }
        }
    }

    /// A key on the on-screen keyboard was pressed. Answers whether that
    /// ended the typing.
    pub fn press(&mut self, cap: KeyCap) -> (done: bool)
        requires
            old(self).wf(),
        ensures
            final(self).wf(),
            done == (cap is Done),
            final(self).spec_text() == match cap {
                KeyCap::Char(c) => typed_char(old(self).spec_text(), c),
                KeyCap::Backspace => backspaced(old(self).spec_text()),
                KeyCap::Done => old(self).spec_text(),
            },
            final(self).spec_open() == (old(self).spec_open() && !(cap is Done)),
    {
        match cap {
            KeyCap::Char(c) => {
                self.push(c);
                false
            },
            KeyCap::Backspace => {
                self.backspace();
                false
            },
            KeyCap::Done => {
                self.close();
                true
            },
        }
    }

    /// What to draw in the field.
    pub fn display(&self) -> (s: String)
        ensures
            s@ == shown(self.spec_text(), self.spec_open()),
    {
        if self.open {
            self.text.clone().concat("_")
        } else if self.text.as_str().unicode_len() == 0 {
            String::from_str("new map...")
        } else {
            self.text.clone()
        }
    }
}

impl Default for TextEntry {
    /// An empty name, with the keyboard closed.
    fn default() -> (e: TextEntry)
        ensures
            e.wf(),
            e.spec_text() == Seq::<char>::empty(),
            !e.spec_open(),
    {
        TextEntry::new()
    }
}

/// However much is typed into a name, it never grows past the longest a name
/// may be, and a name at that length takes no more.
pub proof fn lemma_typing_stops_at_the_limit(text: Seq<char>, input: Seq<char>)
    requires
        text.len() <= MAX_NAME,
    ensures
        typed(text, input).len() <= MAX_NAME,
        text.len() == MAX_NAME ==> typed(text, input) == text,
    decreases input.len(),
{
    if input.len() > 0 {
        lemma_typing_stops_at_the_limit(text, input.drop_last());
    }
}

} // verus!
