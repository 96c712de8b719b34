use vstd::prelude::*;

verus! {

/// Whether `c` is an ASCII decimal digit.
pub open spec fn is_digit(c: char) -> bool {
    '0' <= c && c <= '9'
}

/// Value of the decimal digits `d`, most significant first.
pub open spec fn digits_value(d: Seq<char>) -> int
    decreases d.len(),
{
    if d.len() == 0 {
        0
    } else {
        digits_value(d.drop_last()) * 10 + (d.last() as int - '0' as int)
    }
}

/// `s` without one leading `+`.
pub open spec fn unsigned_part(s: Seq<char>) -> Seq<char> {
    if s.len() > 0 && s[0] == '+' {
        s.drop_first()
    } else {
        s
    }
}

/// The `u64` written in decimal by `s`: an optional `+`, then at least one
/// digit, with a value that fits.
pub open spec fn decimal_u64(s: Seq<char>) -> Option<u64> {
    let d = unsigned_part(s);
    if d.len() > 0 && (forall|i: int| 0 <= i < d.len() ==> is_digit(#[trigger] d[i]))
        && digits_value(d) <= u64::MAX {
        Some(digits_value(d) as u64)
    } else {
        None
    }
}

proof fn lemma_digits_value_grows(d: Seq<char>, k: int)
    requires
        0 <= k <= d.len(),
        forall|i: int| 0 <= i < d.len() ==> is_digit(#[trigger] d[i]),
    ensures
        0 <= digits_value(d.subrange(0, k)) <= digits_value(d),
    decreases d.len(),
{
    if k < d.len() {
        let e = d.drop_last();
        assert(e.subrange(0, k) =~= d.subrange(0, k));
        assert forall|i: int| 0 <= i < e.len() implies is_digit(#[trigger] e[i]) by {
            assert(e[i] == d[i]);
        }
        lemma_digits_value_grows(e, k);
        assert(is_digit(d.last()));
    } else {
        assert(d.subrange(0, k) =~= d);
        if d.len() > 0 {
            let e = d.drop_last();
            assert forall|i: int| 0 <= i < e.len() implies is_digit(#[trigger] e[i]) by {
                assert(e[i] == d[i]);
            }
            lemma_digits_value_grows(e, e.len() as int);
            assert(e.subrange(0, e.len() as int) =~= e);
            assert(is_digit(d.last()));
        }
    }
}

/// Reads a `u64` written in decimal, as `str::parse::<u64>` does.
pub fn parse_decimal_u64(s: &str) -> (r: Option<u64>)
    ensures
        r == decimal_u64(s@),
{
    let n = s.unicode_len();
    let start: usize = if n > 0 && s.get_char(0) == '+' {
        1
    } else {
        0
    };
    let ghost d = unsigned_part(s@);
    assert(d =~= s@.subrange(start as int, n as int));
    if start == n {
        return None;
    }
    let mut value: u64 = 0;
    let mut i: usize = start;
    while i < n
        invariant
            start <= i <= n,
            n == s@.len(),
            d == s@.subrange(start as int, n as int),
            d == unsigned_part(s@),
            start < n,
            forall|j: int| 0 <= j < i - start ==> is_digit(#[trigger] d[j]),
            value == digits_value(d.subrange(0, i - start)),
        decreases n - i,
    {
        let c = s.get_char(i);
        assert(c == d[i - start]);
        if !('0' <= c && c <= '9') {
            assert(!is_digit(d[i - start]));
            return None;
        }
        let digit = (c as u32 - '0' as u32) as u64;
        assert(d.subrange(0, i + 1 - start).drop_last() =~= d.subrange(0, i - start));
        let next = match value.checked_mul(10) {
            Some(m) => m.checked_add(digit),
            None => None,
        };
        match next {
            Some(v) => {
                value = v;
            },
            None => {
                proof {
                    let k = i + 1 - start;
                    let prefix = d.subrange(0, k);
                    assert(digits_value(prefix) > u64::MAX);
                    if forall|j: int| 0 <= j < d.len() ==> is_digit(#[trigger] d[j]) {
                        lemma_digits_value_grows(d, k);
                    }
                }
                return None;
            },
        }
        i += 1;
    }
    assert(d.subrange(0, n - start) =~= d);
    Some(value)
}

/// Whether `c` is white space in Unicode's sense (`char::is_whitespace`).
pub open spec fn is_space(c: char) -> bool {
    ('\u{9}' <= c && c <= '\u{d}') || c == ' ' || c == '\u{85}' || c == '\u{a0}' || c
        == '\u{1680}' || ('\u{2000}' <= c && c <= '\u{200a}') || c == '\u{2028}' || c
        == '\u{2029}' || c == '\u{202f}' || c == '\u{205f}' || c == '\u{3000}'
}

/// Whether `c` is white space.
pub fn is_space_char(c: char) -> (r: bool)
    ensures
        r == is_space(c),
{
    ('\u{9}' <= c && c <= '\u{d}') || c == ' ' || c == '\u{85}' || c == '\u{a0}' || c
        == '\u{1680}' || ('\u{2000}' <= c && c <= '\u{200a}') || c == '\u{2028}' || c
        == '\u{2029}' || c == '\u{202f}' || c == '\u{205f}' || c == '\u{3000}'
}

/// `s` without its leading white space.
pub open spec fn trim_start(s: Seq<char>) -> Seq<char>
    decreases s.len(),
{
    if s.len() > 0 && is_space(s[0]) {
        trim_start(s.drop_first())
    } else {
        s
    }
}

/// `s` without its trailing white space.
pub open spec fn trim_end(s: Seq<char>) -> Seq<char>
    decreases s.len(),
{
    if s.len() > 0 && is_space(s.last()) {
        trim_end(s.drop_last())
    } else {
        s
    }
}

/// `s` without leading and trailing white space.
pub open spec fn trim(s: Seq<char>) -> Seq<char> {
    trim_end(trim_start(s))
}

/// `s` without leading and trailing white space, as `str::trim` gives it.
pub fn trimmed(s: &str) -> (r: String)
    ensures
        r@ == trim(s@),
{
    let n = s.unicode_len();
    let mut a: usize = 0;
    assert(s@.subrange(0, n as int) =~= s@);
    while a < n && is_space_char(s.get_char(a))
        invariant
            n == s@.len(),
            a <= n,
            trim_start(s@) == trim_start(s@.subrange(a as int, n as int)),
        decreases n - a,
    {
        assert(s@.subrange(a as int, n as int).drop_first() =~= s@.subrange(a + 1, n as int));
        a += 1;
    }
    assert(trim_start(s@) == s@.subrange(a as int, n as int));
    let mut b: usize = n;
    while b > a && is_space_char(s.get_char(b - 1))
        invariant
            n == s@.len(),
            a <= b <= n,
            trim(s@) == trim_end(s@.subrange(a as int, b as int)),
        decreases b - a,
    {
        assert(s@.subrange(a as int, b as int).drop_last() =~= s@.subrange(a as int, b - 1));
        b -= 1;
    }
    s.substring_char(a, b).to_owned()
}

/// The views of a list of strings.
pub open spec fn views(v: Seq<String>) -> Seq<Seq<char>> {
    v.map_values(|w: String| w@)
}

/// Finished pieces and the piece under way after reading `s` left to
/// right, pieces being separated by `sep`.
pub open spec fn split_acc(s: Seq<char>, sep: char) -> (Seq<Seq<char>>, Seq<char>)
    decreases s.len(),
{
    if s.len() == 0 {
        (Seq::empty(), Seq::empty())
    } else {
        let (done, cur) = split_acc(s.drop_last(), sep);
        if s.last() == sep {
            (done.push(cur), Seq::empty())
        } else {
            (done, cur.push(s.last()))
        }
    }
}

/// The pieces of `s` between occurrences of `sep` (`str::split`).
pub open spec fn split_on(s: Seq<char>, sep: char) -> Seq<Seq<char>> {
    let (done, cur) = split_acc(s, sep);
    done.push(cur)
}

/// The pieces of `s` between occurrences of `sep`, as `str::split` gives
/// them.
pub fn split_pieces(s: &str, sep: char) -> (r: Vec<String>)
    ensures
        views(r@) == split_on(s@, sep),
{
    let n = s.unicode_len();
    let mut out: Vec<String> = Vec::new();
    let mut start: usize = 0;
    let mut i: usize = 0;
    while i < n
        invariant
            n == s@.len(),
            start <= i <= n,
            split_acc(s@.subrange(0, i as int), sep) == (
                views(out@),
                s@.subrange(start as int, i as int),
            ),
        decreases n - i,
    {
        let c = s.get_char(i);
        let ghost prev = s@.subrange(0, i as int);
        assert(s@.subrange(0, i + 1).drop_last() =~= prev);
        if c == sep {
            let piece = s.substring_char(start, i).to_owned();
            out.push(piece);
            start = i + 1;
            assert(views(out@) =~= views(out@.drop_last()).push(piece@));
        } else {
            assert(s@.subrange(start as int, i + 1) =~= s@.subrange(start as int, i as int).push(
                c,
            ));
        }
        i += 1;
        assert(s@.subrange(start as int, i as int).len() == i - start);
    }
    assert(s@.subrange(0, n as int) =~= s@);
    out.push(s.substring_char(start, n).to_owned());
    assert(views(out@) =~= views(out@.drop_last()).push(s@.subrange(start as int, n as int)));
    out
}

/// Finished words and the word under way after reading `s` left to right.
pub open spec fn words_acc(s: Seq<char>) -> (Seq<Seq<char>>, Seq<char>)
    decreases s.len(),
{
    if s.len() == 0 {
        (Seq::empty(), Seq::empty())
    } else {
        let (done, cur) = words_acc(s.drop_last());
        if is_space(s.last()) {
            if cur.len() > 0 {
                (done.push(cur), Seq::empty())
            } else {
                (done, cur)
            }
        } else {
            (done, cur.push(s.last()))
        }
    }
}

/// The maximal runs of non-white-space characters of `s`, in order
/// (`str::split_whitespace`).
pub open spec fn words(s: Seq<char>) -> Seq<Seq<char>> {
    let (done, cur) = words_acc(s);
    if cur.len() > 0 {
        done.push(cur)
    } else {
        done
    }
}

/// The words of `s`, as `str::split_whitespace` gives them.
pub fn split_words(s: &str) -> (r: Vec<String>)
    ensures
        views(r@) == words(s@),
{
    let n = s.unicode_len();
    let mut out: Vec<String> = Vec::new();
    let mut start: usize = 0;
    let mut i: usize = 0;
    while i < n
        invariant
            n == s@.len(),
            start <= i <= n,
            words_acc(s@.subrange(0, i as int)) == (
                views(out@),
                s@.subrange(start as int, i as int),
            ),
        decreases n - i,
    {
        let c = s.get_char(i);
        assert(s@.subrange(0, i + 1).drop_last() =~= s@.subrange(0, i as int));
        if is_space_char(c) {
            if start < i {
                let word = s.substring_char(start, i).to_owned();
                out.push(word);
                assert(views(out@) =~= views(out@.drop_last()).push(word@));
            }
            start = i + 1;
        } else {
            assert(s@.subrange(start as int, i + 1) =~= s@.subrange(start as int, i as int).push(
                c,
            ));
        }
        i += 1;
        assert(s@.subrange(i as int, i as int) =~= Seq::<char>::empty());
    }
    assert(s@.subrange(0, n as int) =~= s@);
    if start < n {
        let word = s.substring_char(start, n).to_owned();
        out.push(word);
        assert(views(out@) =~= views(out@.drop_last()).push(word@));
    }
    out
}

/// `s` without one line ending at its end: `\n`, or `\r\n`.
pub open spec fn without_line_ending(s: Seq<char>) -> Seq<char> {
    if s.len() > 0 && s.last() == '\n' {
        let t = s.drop_last();
        if t.len() > 0 && t.last() == '\r' {
            t.drop_last()
        } else {
            t
        }
    } else {
        s
    }
}

/// A line as read, without its line ending.
pub fn strip_line_ending(line: &str) -> (r: String)
    ensures
        r@ == without_line_ending(line@),
{
    let n = line.unicode_len();
    let mut end = n;
    if end > 0 && line.get_char(end - 1) == '\n' {
        end -= 1;
        if end > 0 && line.get_char(end - 1) == '\r' {
            end -= 1;
        }
    }
    let r = line.substring_char(0, end).to_owned();
    proof {
        let s = line@;
        if s.len() > 0 && s.last() == '\n' {
            let t = s.drop_last();
            assert(t =~= s.subrange(0, n - 1));
            if t.len() > 0 && t.last() == '\r' {
                assert(t.drop_last() =~= s.subrange(0, n - 2));
            }
        } else {
            assert(s.subrange(0, n as int) =~= s);
        }
    }
    r
}

} // verus!
