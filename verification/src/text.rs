use vstd::prelude::*;

verus! {

/// The characters with the Unicode property White_Space, which
/// `char::is_whitespace` and `str::trim` treat as whitespace.
pub open spec fn is_white_space(c: char) -> bool {
    ||| '\u{9}' <= c <= '\u{d}'
    ||| c == ' '
    ||| c == '\u{85}'
    ||| c == '\u{a0}'
    ||| c == '\u{1680}'
    ||| '\u{2000}' <= c <= '\u{200a}'
    ||| c == '\u{2028}'
    ||| c == '\u{2029}'
    ||| c == '\u{202f}'
    ||| c == '\u{205f}'
    ||| c == '\u{3000}'
}

/// `s` without its leading whitespace.
pub open spec fn trim_start(s: Seq<char>) -> Seq<char>
    decreases s.len(),
{
    if s.len() > 0 && is_white_space(s[0]) {
        trim_start(s.drop_first())
    } else {
        s
    }
}

/// `s` without its trailing whitespace.
pub open spec fn trim_end(s: Seq<char>) -> Seq<char>
    decreases s.len(),
{
    if s.len() > 0 && is_white_space(s.last()) {
        trim_end(s.drop_last())
    } else {
        s
    }
}

/// `s` without leading and trailing whitespace.
pub open spec fn trimmed(s: Seq<char>) -> Seq<char> {
    trim_end(trim_start(s))
}

/// Whether `c` is whitespace.
fn white_space(c: char) -> (r: bool)
    ensures
        r == is_white_space(c),
{
    ('\u{9}' <= c && c <= '\u{d}') || c == ' ' || c == '\u{85}' || c == '\u{a0}' || c == '\u{1680}'
        || ('\u{2000}' <= c && c <= '\u{200a}') || c == '\u{2028}' || c == '\u{2029}' || c
        == '\u{202f}' || c == '\u{205f}' || c == '\u{3000}'
}

/// A copy of `s` without leading and trailing whitespace, as `str::trim`
/// gives it.
pub(crate) fn trim_text(s: &String) -> (r: String)
    ensures
        r@ == trimmed(s@),
{
    let t = s.as_str();
    let n = t.unicode_len();
    let ghost w = t@;
    let mut a: usize = 0;
    assert(w.subrange(0, n as int) =~= w);
    while a < n
        invariant
            a <= n,
            n == w.len(),
            w == t@,
            trim_start(w) == trim_start(w.subrange(a as int, n as int)),
        ensures
            a <= n,
            trim_start(w) == trim_start(w.subrange(a as int, n as int)),
            a == n || !is_white_space(w[a as int]),
        decreases n - a,
    {
        if !white_space(t.get_char(a)) {
            break;
        }
        assert(w.subrange(a as int, n as int).drop_first() =~= w.subrange(a + 1, n as int));
        a = a + 1;
    }
    let ghost u = w.subrange(a as int, n as int);
    assert(trim_start(u) == u);
    let mut b: usize = n;
    while b > a
        invariant
            a <= b <= n,
            n == w.len(),
            w == t@,
            u == w.subrange(a as int, n as int),
            trim_end(u) == trim_end(w.subrange(a as int, b as int)),
        ensures
            a <= b,
            trim_end(u) == trim_end(w.subrange(a as int, b as int)),
            b == a || !is_white_space(w[b - 1]),
        decreases b,
    {
        if !white_space(t.get_char(b - 1)) {
            break;
        }
        assert(w.subrange(a as int, b as int).drop_last() =~= w.subrange(a as int, b - 1));
        b = b - 1;
    }
    assert(trim_end(w.subrange(a as int, b as int)) == w.subrange(a as int, b as int));
    t.substring_char(a, b).to_owned()
}

} // verus!
