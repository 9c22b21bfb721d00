use vstd::prelude::*;
use vstd::string::StrSliceExecFns;

verus! {

/// `i` is the position of the first occurrence of `separator` in `s`.
pub open spec fn is_first_separator(s: Seq<char>, separator: char, i: int) -> bool {
    &&& 0 <= i < s.len()
    &&& s[i] == separator
    &&& forall|j: int| 0 <= j < i ==> s[j] != separator
}

pub open spec fn is_digit(c: char) -> bool {
    '0' <= c && c <= '9'
}

pub open spec fn digit_value(c: char) -> nat {
    ((c as u32) - ('0' as u32)) as nat
}

/// Value of a string of decimal digits, most significant first.
pub open spec fn digits_value(d: Seq<char>) -> nat
    decreases d.len(),
{
    if d.len() == 0 {
        0
    } else {
        digits_value(d.drop_last()) * 10 + digit_value(d.last())
    }
}

/// The digits of an unsigned number: the text after an optional leading `+`.
pub open spec fn unsigned_digits(s: Seq<char>) -> Seq<char> {
    if s.len() > 0 && s[0] == '+' {
        s.drop_first()
    } else {
        s
    }
}

/// An optional `+` followed by one or more decimal digits whose value fits
/// in a `usize`; nothing else is a number.
pub open spec fn decimal_spec(s: Seq<char>) -> Option<usize> {
    let d = unsigned_digits(s);
    if d.len() > 0 && (forall|i: int| 0 <= i < d.len() ==> is_digit(#[trigger] d[i])) && digits_value(d)
        <= usize::MAX {
        Some(digits_value(d) as usize)
    } else {
        None
    }
}

/// `<left><separator><right>`, split at the first separator, with both
/// sides numbers.
pub open spec fn pair_spec(s: Seq<char>, separator: char) -> Option<(usize, usize)> {
    if exists|i: int| is_first_separator(s, separator, i) {
        let i = choose|i: int| is_first_separator(s, separator, i);
        match (decimal_spec(s.subrange(0, i)), decimal_spec(s.subrange(i + 1, s.len() as int))) {
            (Some(l), Some(r)) => Some((l, r)),
            _ => None,
        }
    } else {
        None
    }
}

proof fn lemma_first_separator_unique(s: Seq<char>, separator: char, i: int, j: int)
    requires
        is_first_separator(s, separator, i),
        is_first_separator(s, separator, j),
    ensures
        i == j,
{
}

proof fn lemma_digits_prefix_step(d: Seq<char>, k: int)
    requires
        0 <= k < d.len(),
    ensures
        digits_value(d.subrange(0, k + 1)) == digits_value(d.subrange(0, k)) * 10 + digit_value(d[k]),
{
    assert(d.subrange(0, k + 1).drop_last() =~= d.subrange(0, k));
}

proof fn lemma_digits_monotone(d: Seq<char>, j: int, k: int)
    requires
        0 <= j <= k <= d.len(),
    ensures
        digits_value(d.subrange(0, j)) <= digits_value(d.subrange(0, k)),
    decreases k - j,
{
    if j < k {
        lemma_digits_monotone(d, j, k - 1);
        lemma_digits_prefix_step(d, k - 1);
    }
}

/// Splits `s` at the first occurrence of `separator`, or gives `None` when
/// the separator does not occur.
pub fn split_pair<'a>(s: &'a str, separator: char) -> (r: Option<(&'a str, &'a str)>)
    ensures
        match r {
            None => forall|i: int| 0 <= i < s@.len() ==> s@[i] != separator,
            Some((left, right)) => {
                &&& is_first_separator(s@, separator, left@.len() as int)
                &&& left@ == s@.subrange(0, left@.len() as int)
                &&& right@ == s@.subrange(left@.len() as int + 1, s@.len() as int)
            },
        },
{
    let len = s.unicode_len();
    let mut i: usize = 0;
    while i < len
        invariant
            len == s@.len(),
            i <= len,
            forall|j: int| 0 <= j < i ==> s@[j] != separator,
        decreases len - i,
    {
        if s.get_char(i) == separator {
            let left = s.substring_char(0, i);
            let right = s.substring_char(i + 1, len);
            return Some((left, right));
        }
        i = i + 1;
    }
    None
}

/// Reads an unsigned decimal number: an optional `+` and one or more
/// digits, with a value that fits in a `usize`.
pub fn parse_decimal(s: &str) -> (r: Option<usize>)
    ensures
        r == decimal_spec(s@),
{
    let len = s.unicode_len();
    let mut i: usize = 0;
    if len > 0 && s.get_char(0) == '+' {
        i = 1;
    }
    let ghost first = i as int;
    let ghost d = unsigned_digits(s@);
    assert(d =~= s@.subrange(first, len as int));
    if i >= len {
        return None;
    }
    let mut v: usize = 0;
    while i < len
        invariant
            len == s@.len(),
            0 <= first <= i <= len,
            d == s@.subrange(first, len as int),
            d == unsigned_digits(s@),
            d.len() > 0,
            forall|j: int| 0 <= j < i - first ==> is_digit(#[trigger] d[j]),
            v == digits_value(d.subrange(0, i - first)),
        decreases len - i,
    {
        let c = s.get_char(i);
        assert(c == d[i - first]);
        if !('0' <= c && c <= '9') {
            assert(!is_digit(d[i - first]));
            return None;
        }
        let dv = ((c as u32) - ('0' as u32)) as usize;
        proof {
            lemma_digits_prefix_step(d, i - first);
        }
        let next = match v.checked_mul(10) {
            None => None,
            Some(m) => m.checked_add(dv),
        };
        match next {
            None => {
                proof {
                    if forall|j: int| 0 <= j < d.len() ==> is_digit(#[trigger] d[j]) {
                        lemma_digits_monotone(d, i - first + 1, d.len() as int);
                        assert(d.subrange(0, d.len() as int) =~= d);
                    }
                }
                return None;
            },
            Some(x) => {
                v = x;
            },
        }
        i = i + 1;
    }
    assert(d.subrange(0, d.len() as int) =~= d);
    Some(v)
}

/// Parses `<left><separator><right>` into two numbers, as for `"400x600"`
/// with separator `x`; gives `None` when the separator is missing or
/// either side is not a number.
pub fn parse_pair(s: &str, separator: char) -> (r: Option<(usize, usize)>)
    ensures
        r == pair_spec(s@, separator),
{
    match split_pair(s, separator) {
        None => {
            assert(!exists|i: int| is_first_separator(s@, separator, i));
            None
        },
        Some((left, right)) => {
            let ghost i = left@.len() as int;
            proof {
                let c = choose|j: int| is_first_separator(s@, separator, j);
                lemma_first_separator_unique(s@, separator, i, c);
            }
            match (parse_decimal(left), parse_decimal(right)) {
                (Some(l), Some(r)) => Some((l, r)),
                _ => None,
            }
        },
    }
}

} // verus!
