use vstd::prelude::*;
use vstd::string::{StrSliceExecFns, StringExecFns};

verus! {

/// Where a decoration goes on a line.
#[derive(Clone, Copy, Debug, PartialEq, Eq, Structural)]
pub enum Affix {
    Prefix,
    Suffix,
}

/// Number of decorations a line can be given.
pub const DECORATIONS: usize = 5;

/// The characters with the Unicode `White_Space` property.
pub open spec fn is_white_space(c: char) -> bool {
    ||| ('\u{9}' <= c && c <= '\u{d}')
    ||| c == ' '
    ||| c == '\u{85}'
    ||| c == '\u{a0}'
    ||| c == '\u{1680}'
    ||| ('\u{2000}' <= c && c <= '\u{200a}')
    ||| c == '\u{2028}'
    ||| c == '\u{2029}'
    ||| c == '\u{202f}'
    ||| c == '\u{205f}'
    ||| c == '\u{3000}'
}

/// `s` without its trailing white space.
pub open spec fn trim_end_spec(s: Seq<char>) -> Seq<char>
    decreases s.len(),
{
    if s.len() > 0 && is_white_space(s.last()) {
        trim_end_spec(s.drop_last())
    } else {
        s
    }
}

/// Decoration `k`: where it goes and its text.
pub open spec fn decoration_spec(k: int) -> (Option<Affix>, Seq<char>) {
    if k == 0 {
        (Some(Affix::Suffix), seq!['a', 'p', 'p'])
    } else if k == 1 {
        (Some(Affix::Suffix), seq!['s', 'i', 't', 'e'])
    } else if k == 2 {
        (Some(Affix::Suffix), seq!['t', 'i', 'm', 'e'])
    } else if k == 3 {
        (Some(Affix::Prefix), seq!['g', 'e', 't'])
    } else {
        (None, Seq::empty())
    }
}

/// The echo of `line` under decoration `k`.
pub open spec fn sprinkle_spec(line: Seq<char>, k: int) -> Seq<char> {
    let echo = seq!['e', 'c', 'h', 'o', ':', ' '];
    let t = trim_end_spec(line);
    let (affix, text) = decoration_spec(k);
    match affix {
        Some(Affix::Prefix) => echo + text + t,
        Some(Affix::Suffix) => echo + t + text,
        None => t,
    }
}

pub fn is_white_space_char(c: char) -> (r: bool)
    ensures
        r == is_white_space(c),
{
    ('\u{9}' <= c && c <= '\u{d}') || c == ' ' || c == '\u{85}' || c == '\u{a0}' || c == '\u{1680}'
        || ('\u{2000}' <= c && c <= '\u{200a}') || c == '\u{2028}' || c == '\u{2029}' || c
        == '\u{202f}' || c == '\u{205f}' || c == '\u{3000}'
}

proof fn lemma_trim_end_prefix(s: Seq<char>, k: int)
    requires
        0 <= k <= s.len(),
        forall|j: int| k <= j < s.len() ==> is_white_space(#[trigger] s[j]),
    ensures
        trim_end_spec(s) == trim_end_spec(s.subrange(0, k)),
    decreases s.len() - k,
{
    if k < s.len() {
        assert(s.drop_last() =~= s.subrange(0, s.len() - 1));
        lemma_trim_end_prefix(s.drop_last(), k);
        assert(s.drop_last().subrange(0, k) =~= s.subrange(0, k));
    } else {
        assert(s.subrange(0, k) =~= s);
    }
}

/// `line` with its trailing white space removed.
pub fn trim_end(line: &str) -> (r: &str)
    ensures
        r@ == trim_end_spec(line@),
{
    let mut end = line.unicode_len();
    while end > 0 && is_white_space_char(line.get_char(end - 1))
        invariant
            end <= line@.len(),
            forall|j: int| end <= j < line@.len() ==> is_white_space(#[trigger] line@[j]),
        decreases end,
    {
        end = end - 1;
    }
    proof {
        lemma_trim_end_prefix(line@, end as int);
        let t = line@.subrange(0, end as int);
        if end > 0 {
            assert(t.last() == line@[end - 1]);
        }
    }
    line.substring_char(0, end)
}

/// Echoes `line` without trailing white space, decorated by decoration
/// `pick`: a suffix `app`, `site` or `time`, a prefix `get`, or nothing
/// (the last, bare echo carries no `echo: ` label).
pub fn sprinkle_line(line: &str, pick: usize) -> (r: String)
    requires
        pick < DECORATIONS,
    ensures
        r@ == sprinkle_spec(line@, pick as int),
{
    let t = trim_end(line);
    let echo = "echo: ";
    proof {
        reveal_strlit("echo: ");
        reveal_strlit("app");
        reveal_strlit("site");
        reveal_strlit("time");
        reveal_strlit("get");
    }
    assert(echo@ =~= seq!['e', 'c', 'h', 'o', ':', ' ']);
    if pick == 0 {
        assert("app"@ =~= seq!['a', 'p', 'p']);
        String::from_str(echo).concat(t).concat("app")
    } else if pick == 1 {
        assert("site"@ =~= seq!['s', 'i', 't', 'e']);
        String::from_str(echo).concat(t).concat("site")
    } else if pick == 2 {
        assert("time"@ =~= seq!['t', 'i', 'm', 'e']);
        String::from_str(echo).concat(t).concat("time")
    } else if pick == 3 {
        assert("get"@ =~= seq!['g', 'e', 't']);
        String::from_str(echo).concat("get").concat(t)
    } else {
        String::from_str(t)
    }
}

} // verus!
