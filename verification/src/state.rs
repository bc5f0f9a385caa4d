//! Which screen the app is showing: [`AppState`], and the names a screen
//! can be asked for by when the app is booted straight into one.

use vstd::prelude::*;

verus! {

/// A white-space character, as Unicode's `White_Space` property has it.
pub open spec fn is_white_space(c: char) -> bool {
    let n = c as u32;
    ||| 0x9 <= n <= 0xD
    ||| n == 0x20
    ||| n == 0x85
    ||| n == 0xA0
    ||| n == 0x1680
    ||| 0x2000 <= n <= 0x200A
    ||| n == 0x2028
    ||| n == 0x2029
    ||| n == 0x202F
    ||| n == 0x205F
    ||| n == 0x3000
}

/// `s` without the white space it starts with.
pub open spec fn trim_start(s: Seq<char>) -> Seq<char>
    decreases s.len(),
{
    if s.len() > 0 && is_white_space(s[0]) {
        trim_start(s.drop_first())
    } else {
        s
    }
}

/// `s` without the white space it ends with.
pub open spec fn trim_end(s: Seq<char>) -> Seq<char>
    decreases s.len(),
{
    if s.len() > 0 && is_white_space(s.last()) {
        trim_end(s.drop_last())
    } else {
        s
    }
}

/// `s` without white space at either end.
pub open spec fn trimmed(s: Seq<char>) -> Seq<char> {
    trim_end(trim_start(s))
}

/// `c` with an ASCII capital made small; every other character unchanged.
pub open spec fn ascii_lower(c: char) -> char {
    if 'A' as u32 <= c as u32 <= 'Z' as u32 {
        (((c as u32) + 32) as u8) as char
    } else {
        c
    }
}

/// Every ASCII capital of `s` made small.
pub open spec fn ascii_lowered(s: Seq<char>) -> Seq<char> {
    s.map_values(|c: char| ascii_lower(c))
}

fn ascii_lower_exec(c: char) -> (l: char)
    ensures
        l == ascii_lower(c),
{
    let n = c as u32;
    if 65 <= n && n <= 90 {
        ((n + 32) as u8) as char
    } else {
        c
    }
}

/// Dropping white space from the front of `s[i..]`, when `s[..i]` is all
/// white space, is dropping it from the front of `s`.
proof fn lemma_trim_start_from(s: Seq<char>, i: int)
    requires
        0 <= i <= s.len(),
        forall|k: int| 0 <= k < i ==> is_white_space(#[trigger] s[k]),
    ensures
        trim_start(s) == trim_start(s.subrange(i, s.len() as int)),
    decreases i,
{
    if i > 0 {
        let rest = s.drop_first();
        assert forall|k: int| 0 <= k < i - 1 implies is_white_space(#[trigger] rest[k]) by {
            assert(rest[k] == s[k + 1]);
        }
        lemma_trim_start_from(rest, i - 1);
        assert(rest.subrange(i - 1, rest.len() as int) =~= s.subrange(i, s.len() as int));
    } else {
        assert(s.subrange(0, s.len() as int) =~= s);
    }
}

/// Dropping white space from the back of `s[..j]`, when `s[j..]` is all
/// white space, is dropping it from the back of `s`.
proof fn lemma_trim_end_to(s: Seq<char>, j: int)
    requires
        0 <= j <= s.len(),
        forall|k: int| j <= k < s.len() ==> is_white_space(#[trigger] s[k]),
    ensures
        trim_end(s) == trim_end(s.subrange(0, j)),
    decreases s.len() - j,
{
    if j < s.len() {
        let rest = s.drop_last();
        assert forall|k: int| j <= k < rest.len() implies is_white_space(#[trigger] rest[k]) by {
            assert(rest[k] == s[k]);
        }
        lemma_trim_end_to(rest, j);
        assert(rest.subrange(0, j) =~= s.subrange(0, j));
    } else {
        assert(s.subrange(0, j) =~= s);
    }
}

/// `s` without white space at either end, as `str::trim` leaves it.
pub fn trim(s: &str) -> (t: &str)
    ensures
        t@ == trimmed(s@),
{
    let n = s.unicode_len();
    let mut i: usize = 0;
    while i < n && is_white_space_exec(s.get_char(i))
        invariant
            n == s@.len(),
            0 <= i <= n,
            forall|k: int| 0 <= k < i ==> is_white_space(#[trigger] s@[k]),
        decreases n - i,
    {
        i = i + 1;
    }
    let mut j: usize = n;
    while j > i && is_white_space_exec(s.get_char(j - 1))
        invariant
            n == s@.len(),
            0 <= i <= j <= n,
            forall|k: int| j <= k < n ==> is_white_space(#[trigger] s@[k]),
        decreases j - i,
    {
        j = j - 1;
    }
    let t = s.substring_char(i, j);
    proof {
        lemma_trim_start_from(s@, i as int);
        let rest = s@.subrange(i as int, n as int);
        if i < n {
            assert(rest[0] == s@[i as int]);
        }
        assert(trim_start(rest) == rest);
        assert forall|k: int| j - i <= k < rest.len() implies is_white_space(#[trigger] rest[k]) by {
            assert(rest[k] == s@[i + k]);
        }
        lemma_trim_end_to(rest, j - i);
        let kept = rest.subrange(0, j - i);
        assert(kept =~= s@.subrange(i as int, j as int));
        if j > i {
            assert(kept.last() == s@[j - 1]);
        }
        assert(trim_end(kept) == kept);
    }
    t
}

fn is_white_space_exec(c: char) -> (b: bool)
    ensures
        b == is_white_space(c),
{
    let n = c as u32;
    (0x9 <= n && n <= 0xD) || n == 0x20 || n == 0x85 || n == 0xA0 || n == 0x1680 || (0x2000 <= n
        && n <= 0x200A) || n == 0x2028 || n == 0x2029 || n == 0x202F || n == 0x205F || n == 0x3000
}

/// Whether `a`, its ASCII capitals made small, is `b`.
fn same_text_lowered(a: &str, b: &str) -> (same: bool)
    ensures
        same == (ascii_lowered(a@) == b@),
{
    let n = a.unicode_len();
    if n != b.unicode_len() {
        proof {
            assert(ascii_lowered(a@).len() != b@.len());
        }
        return false;
    }
    let mut i: usize = 0;
    while i < n
        invariant
            n == a@.len(),
            n == b@.len(),
            0 <= i <= n,
            forall|k: int| 0 <= k < i ==> ascii_lower(a@[k]) == b@[k],
        decreases n - i,
    {
        if ascii_lower_exec(a.get_char(i)) != b.get_char(i) {
            proof {
                assert(ascii_lowered(a@)[i as int] != b@[i as int]);
            }
            return false;
        }
        i = i + 1;
    }
    proof {
        assert(ascii_lowered(a@) =~= b@);
    }
    true
}

/// Which screen the app is showing.
#[derive(Clone, Copy, PartialEq, Eq, Structural, Hash, Debug)]
pub enum AppState {
    MainMenu,
    /// The map browser: saved maps, and everything done to a map from
    /// outside the editor.
    Maps,
    Editor,
    /// Playing a map.
    Game,
}

/// The screen called `name`, once trimmed and made small: each screen
/// answers to a few names.
pub open spec fn state_named(name: Seq<char>) -> Option<AppState> {
    if name == "menu"@ || name == "mainmenu"@ || name == "main_menu"@ {
        Some(AppState::MainMenu)
    } else if name == "maps"@ || name == "browser"@ || name == "files"@ {
        Some(AppState::Maps)
    } else if name == "editor"@ || name == "edit"@ {
        Some(AppState::Editor)
    } else if name == "game"@ || name == "play"@ {
        Some(AppState::Game)
    } else {
        None
    }
}

impl AppState {
    /// Every screen this build has, by the name [`AppState::from_name`]
    /// takes.
    pub fn names() -> (s: &'static str)
        ensures
            s@ == "menu, maps, editor, game"@,
    {
        "menu, maps, editor, game"
    }

    /// The screen a name asks for, whatever white space is round it and
    /// whichever ASCII letters are capitals; `None` for a name no screen
    /// answers to.
    pub fn from_name(name: &str) -> (state: Option<AppState>)
        ensures
            state == state_named(ascii_lowered(trimmed(name@))),
    {
        let name = trim(name);
        if same_text_lowered(name, "menu") || same_text_lowered(name, "mainmenu")
            || same_text_lowered(name, "main_menu") {
            Some(AppState::MainMenu)
        } else if same_text_lowered(name, "maps") || same_text_lowered(name, "browser")
            || same_text_lowered(name, "files") {
            Some(AppState::Maps)
        } else if same_text_lowered(name, "editor") || same_text_lowered(name, "edit") {
            Some(AppState::Editor)
        } else if same_text_lowered(name, "game") || same_text_lowered(name, "play") {
            Some(AppState::Game)
        } else {
            None
        }
    }
}

impl Default for AppState {
    /// The main menu, where the app starts.
    fn default() -> (s: AppState)
        ensures
            s == AppState::MainMenu,
    {
        AppState::MainMenu
    }
}

} // verus!
