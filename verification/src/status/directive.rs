//! Status badge colors, parsed leniently from a `color=` attribute.

use vstd::prelude::*;
use crate::text::{back_ws, chars_of, is_space_spec, skip_ws, trim_seq, trim_vec};

verus! {

/// Directive name of the status badge.
pub const STATUS_NAME: &'static str = "status";

/// Color of a status badge.
#[derive(Debug, Clone, Copy, PartialEq, Eq, Structural)]
pub enum StatusColor {
    Grey,
    Red,
    Yellow,
    Green,
    Blue,
    Purple,
}

impl Default for StatusColor {
    fn default() -> (r: Self)
        ensures
            r == StatusColor::Grey,
    {
        StatusColor::Grey
    }
}

/// `c` with an ASCII uppercase letter lowered.
pub open spec fn ascii_lower(c: char) -> char {
    if 'A' <= c && c <= 'Z' {
        ((c as u32) + 32) as char
    } else {
        c
    }
}

/// `str::eq_ignore_ascii_case`.
pub open spec fn eq_ignore_ascii_case(a: Seq<char>, b: Seq<char>) -> bool {
    a.len() == b.len() && forall|i: int| 0 <= i < a.len() ==> ascii_lower(#[trigger] a[i]) == ascii_lower(b[i])
}

/// The color named by `name`: one of red, yellow, green, blue and purple,
/// ignoring ASCII case and surrounding white space; anything else is grey.
pub open spec fn color_spec(name: Seq<char>) -> StatusColor {
    let t = trim_seq(name);
    if eq_ignore_ascii_case(t, seq!['r', 'e', 'd']) {
        StatusColor::Red
    } else if eq_ignore_ascii_case(t, seq!['y', 'e', 'l', 'l', 'o', 'w']) {
        StatusColor::Yellow
    } else if eq_ignore_ascii_case(t, seq!['g', 'r', 'e', 'e', 'n']) {
        StatusColor::Green
    } else if eq_ignore_ascii_case(t, seq!['b', 'l', 'u', 'e']) {
        StatusColor::Blue
    } else if eq_ignore_ascii_case(t, seq!['p', 'u', 'r', 'p', 'l', 'e']) {
        StatusColor::Purple
    } else {
        StatusColor::Grey
    }
}

/// The color's name as written in class names.
pub open spec fn color_name(c: StatusColor) -> Seq<char> {
    match c {
        StatusColor::Grey => "grey"@,
        StatusColor::Red => "red"@,
        StatusColor::Yellow => "yellow"@,
        StatusColor::Green => "green"@,
        StatusColor::Blue => "blue"@,
        StatusColor::Purple => "purple"@,
    }
}

pub(crate) fn lower(c: char) -> (r: char)
    ensures
        r == ascii_lower(c),
{
    if 'A' <= c && c <= 'Z' {
        let b = (c as u8) + 32;
        b as char
    } else {
        c
    }
}

fn eq_ic(a: &[char], b: &[char]) -> (r: bool)
    ensures
        r == eq_ignore_ascii_case(a@, b@),
{
    if a.len() != b.len() {
        return false;
    }
    let mut i: usize = 0;
    while i < a.len()
        invariant
            i <= a@.len(),
            a@.len() == b@.len(),
            forall|k: int| 0 <= k < i ==> ascii_lower(#[trigger] a@[k]) == ascii_lower(b@[k]),
        decreases a.len() - i,
    {
        if lower(a[i]) != lower(b[i]) {
            return false;
        }
        i = i + 1;
    }
    true
}

impl StatusColor {
    /// The color named by `name` (see [`color_spec`]).
    pub fn from_name(name: &str) -> (r: Self)
        ensures
            r == color_spec(name@),
    {
        let t = trim_vec(chars_of(name).as_slice());
        if eq_ic(t.as_slice(), &['r', 'e', 'd']) {
            StatusColor::Red
        } else if eq_ic(t.as_slice(), &['y', 'e', 'l', 'l', 'o', 'w']) {
            StatusColor::Yellow
        } else if eq_ic(t.as_slice(), &['g', 'r', 'e', 'e', 'n']) {
            StatusColor::Green
        } else if eq_ic(t.as_slice(), &['b', 'l', 'u', 'e']) {
            StatusColor::Blue
        } else if eq_ic(t.as_slice(), &['p', 'u', 'r', 'p', 'l', 'e']) {
            StatusColor::Purple
        } else {
            StatusColor::Grey
        }
    }

    /// The color's name: `grey`, `red`, `yellow`, `green`, `blue` or `purple`.
    pub fn as_str(&self) -> (r: &'static str)
        ensures
            r@ == color_name(*self),
    {
        match self {
            StatusColor::Grey => "grey",
            StatusColor::Red => "red",
            StatusColor::Yellow => "yellow",
            StatusColor::Green => "green",
            StatusColor::Blue => "blue",
            StatusColor::Purple => "purple",
        }
    }

    /// The color's name, owned.
    pub fn to_string(&self) -> (r: String)
        ensures
            r@ == color_name(*self),
    {
        self.as_str().to_owned()
    }
}

impl<'a> From<&'a str> for StatusColor {
    fn from(name: &'a str) -> (r: Self) {
        StatusColor::from_name(name)
    }
}

impl<'a> vstd::std_specs::convert::FromSpecImpl<&'a str> for StatusColor {
    open spec fn obeys_from_spec() -> bool {
        true
    }

    open spec fn from_spec(name: &'a str) -> StatusColor {
        color_spec(name@)
    }
}


/// A name that starts and ends with a letter is its own trim.
proof fn lemma_trim_of_word(n: Seq<char>)
    requires
        n.len() > 0,
        !is_space_spec(n[0]),
        !is_space_spec(n[n.len() - 1]),
    ensures
        trim_seq(n) == n,
{
    assert(skip_ws(n, 0, n.len() as int) == 0);
    assert(back_ws(n, 0, n.len() as int) == n.len());
    assert(n.subrange(0, n.len() as int) =~= n);
}

/// Every color is read back from its own name: `from` inverts `as_str`.
pub proof fn lemma_color_name_round_trip(c: StatusColor)
    ensures
        color_spec(color_name(c)) == c,
{
    reveal_strlit("grey");
    reveal_strlit("red");
    reveal_strlit("yellow");
    reveal_strlit("green");
    reveal_strlit("blue");
    reveal_strlit("purple");
    let n = color_name(c);
    lemma_trim_of_word(n);
    let red = seq!['r', 'e', 'd'];
    let yellow = seq!['y', 'e', 'l', 'l', 'o', 'w'];
    let green = seq!['g', 'r', 'e', 'e', 'n'];
    let blue = seq!['b', 'l', 'u', 'e'];
    let purple = seq!['p', 'u', 'r', 'p', 'l', 'e'];
    match c {
        StatusColor::Grey => {
            assert(!eq_ignore_ascii_case(n, red));
            assert(!eq_ignore_ascii_case(n, yellow));
            assert(!eq_ignore_ascii_case(n, green));
            assert(ascii_lower(n[0]) != ascii_lower(blue[0]));
            assert(!eq_ignore_ascii_case(n, blue));
            assert(!eq_ignore_ascii_case(n, purple));
        },
        StatusColor::Red => {
            assert(eq_ignore_ascii_case(n, red));
        },
        StatusColor::Yellow => {
            assert(ascii_lower(n[0]) != ascii_lower(red[0]));
            assert(!eq_ignore_ascii_case(n, red));
            assert(eq_ignore_ascii_case(n, yellow));
        },
        StatusColor::Green => {
            assert(!eq_ignore_ascii_case(n, red));
            assert(!eq_ignore_ascii_case(n, yellow));
            assert(eq_ignore_ascii_case(n, green));
        },
        StatusColor::Blue => {
            assert(!eq_ignore_ascii_case(n, red));
            assert(!eq_ignore_ascii_case(n, yellow));
            assert(!eq_ignore_ascii_case(n, green));
            assert(eq_ignore_ascii_case(n, blue));
        },
        StatusColor::Purple => {
            assert(!eq_ignore_ascii_case(n, red));
            assert(!eq_ignore_ascii_case(n, yellow));
            assert(!eq_ignore_ascii_case(n, green));
            assert(!eq_ignore_ascii_case(n, blue));
            assert(eq_ignore_ascii_case(n, purple));
        },
    }
}

} // verus!
