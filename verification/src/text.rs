//! Character-level text handling: whitespace, trimming, splitting,
//! substring search, lowercasing and unsigned integer parsing.
use vstd::prelude::*;

verus! {

/// Unicode `White_Space` property: the characters `char::is_whitespace` accepts.
pub open spec fn is_white_space(c: char) -> bool {
    let u = c as u32;
    ||| 0x09 <= u <= 0x0d
    ||| u == 0x20
    ||| u == 0x85
    ||| u == 0xa0
    ||| u == 0x1680
    ||| 0x2000 <= u <= 0x200a
    ||| u == 0x2028
    ||| u == 0x2029
    ||| u == 0x202f
    ||| u == 0x205f
    ||| u == 0x3000
}

/// Whether `c` is a whitespace character.
pub fn is_whitespace(c: char) -> (r: bool)
    ensures
        r == is_white_space(c),
{
    let u = c as u32;
    (0x09 <= u && u <= 0x0d) || u == 0x20 || u == 0x85 || u == 0xa0 || u == 0x1680 || (0x2000
        <= u && u <= 0x200a) || u == 0x2028 || u == 0x2029 || u == 0x202f || u == 0x205f || u
        == 0x3000
}

/// `s` without its leading whitespace.
pub open spec fn trim_start(s: Seq<char>) -> Seq<char>
    decreases s.len(),
{
    if s.len() > 0 && is_white_space(s[0]) {
        trim_start(s.drop_first())
    } else {
        s
    }
}

/// `s` without its trailing whitespace.
pub open spec fn trim_end(s: Seq<char>) -> Seq<char>
    decreases s.len(),
{
    if s.len() > 0 && is_white_space(s.last()) {
        trim_end(s.drop_last())
    } else {
        s
    }
}

/// `s` without leading and trailing whitespace, as `str::trim` gives it.
pub open spec fn trim(s: Seq<char>) -> Seq<char> {
    trim_end(trim_start(s))
}

/// The pieces of `s` between occurrences of `sep`, the current piece
/// having collected `cur` so far.
pub open spec fn split_from(s: Seq<char>, sep: char, cur: Seq<char>) -> Seq<Seq<char>>
    decreases s.len(),
{
    if s.len() == 0 {
        seq![cur]
    } else if s[0] == sep {
        seq![cur] + split_from(s.drop_first(), sep, Seq::empty())
    } else {
        split_from(s.drop_first(), sep, cur.push(s[0]))
    }
}

/// The pieces of `s` separated by `sep`, as `str::split` with a `char`
/// pattern yields them (always at least one piece).
pub open spec fn split_on(s: Seq<char>, sep: char) -> Seq<Seq<char>> {
    split_from(s, sep, Seq::empty())
}

/// `seq![cur]` when `cur` is not empty, else nothing.
pub open spec fn word_if_any(cur: Seq<char>) -> Seq<Seq<char>> {
    if cur.len() > 0 {
        seq![cur]
    } else {
        Seq::empty()
    }
}

/// The maximal runs of non-whitespace characters of `s`, the current run
/// having collected `cur` so far.
pub open spec fn words_from(s: Seq<char>, cur: Seq<char>) -> Seq<Seq<char>>
    decreases s.len(),
{
    if s.len() == 0 {
        word_if_any(cur)
    } else if is_white_space(s[0]) {
        word_if_any(cur) + words_from(s.drop_first(), Seq::empty())
    } else {
        words_from(s.drop_first(), cur.push(s[0]))
    }
}

/// The words of `s`, as `str::split_whitespace` yields them.
pub open spec fn words(s: Seq<char>) -> Seq<Seq<char>> {
    words_from(s, Seq::empty())
}

/// Whether `needle` occurs in `hay` as a contiguous run.
pub open spec fn contains_run(hay: Seq<char>, needle: Seq<char>) -> bool {
    exists|i: int|
        0 <= i && i + needle.len() <= hay.len() && #[trigger] hay.subrange(i, i + needle.len())
            == needle
}

/// `needle` occurs in `hay` exactly when `hay` is some text, then
/// `needle`, then some more text: at the start, in the middle or at the
/// end alike.
pub proof fn law_contains_run_anywhere(hay: Seq<char>, needle: Seq<char>)
    ensures
        contains_run(hay, needle) <==> exists|a: Seq<char>, b: Seq<char>| hay == #[trigger] (a + needle + b),
{
    if contains_run(hay, needle) {
        let i = choose|i: int|
            0 <= i && i + needle.len() <= hay.len() && #[trigger] hay.subrange(i, i + needle.len())
                == needle;
        let a = hay.subrange(0, i);
        let b = hay.subrange(i + needle.len(), hay.len() as int);
        assert(hay =~= a + needle + b);
    }
    if exists|a: Seq<char>, b: Seq<char>| hay == #[trigger] (a + needle + b) {
        let (a, b) = choose|a: Seq<char>, b: Seq<char>| hay == #[trigger] (a + needle + b);
        let i = a.len() as int;
        assert(hay.subrange(i, i + needle.len()) =~= needle);
    }
}

/// Lowercase mapping of a string, as `str::to_lowercase` computes it
/// (Unicode `Lowercase_Mapping`, character by character with the
/// final-sigma rule).
pub uninterp spec fn lowercase(s: Seq<char>) -> Seq<char>;

/// Calls `str::to_lowercase`. Claimed: the result is a function of the
/// argument's characters alone, named `lowercase`; nothing more about the
/// mapping is stated here.
#[verifier::external_body]
pub fn to_lowercase(s: &str) -> (r: String)
    ensures
        r@ == lowercase(s@),
{
    s.to_lowercase()
}

/// The characters of `s`.
pub fn chars_of(s: &str) -> (v: Vec<char>)
    ensures
        v@ == s@,
{
    let mut v: Vec<char> = Vec::new();
    for c in it: s.chars()
        invariant
            v@ == it.seq().take(it.index() as int),
            it.seq() == s@,
    {
        v.push(c);
    }
    v
}

/// Whether two strings hold the same characters.
pub fn text_eq(a: &str, b: &str) -> (r: bool)
    ensures
        r == (a@ == b@),
{
    let x = String::from_str(a);
    let y = String::from_str(b);
    x == y
}

proof fn lemma_trim_start_skip(s: Seq<char>, k: int)
    requires
        0 <= k <= s.len(),
        forall|j: int| 0 <= j < k ==> is_white_space(#[trigger] s[j]),
    ensures
        trim_start(s) == trim_start(s.subrange(k, s.len() as int)),
    decreases k,
{
    if k > 0 {
        assert(s.drop_first() =~= s.subrange(1, s.len() as int));
        let t = s.drop_first();
        assert forall|j: int| 0 <= j < k - 1 implies is_white_space(#[trigger] t[j]) by {
            assert(t[j] == s[j + 1]);
        }
        lemma_trim_start_skip(t, k - 1);
        assert(t.subrange(k - 1, t.len() as int) =~= s.subrange(k, s.len() as int));
    } else {
        assert(s.subrange(0, s.len() as int) =~= s);
    }
}

proof fn lemma_trim_end_drop(s: Seq<char>, k: int)
    requires
        0 <= k <= s.len(),
        forall|j: int| s.len() - k <= j < s.len() ==> is_white_space(#[trigger] s[j]),
    ensures
        trim_end(s) == trim_end(s.subrange(0, s.len() - k)),
    decreases k,
{
    if k > 0 {
        let t = s.drop_last();
        assert forall|j: int| t.len() - (k - 1) <= j < t.len() implies is_white_space(
            #[trigger] t[j],
        ) by {
            assert(t[j] == s[j]);
        }
        lemma_trim_end_drop(t, k - 1);
        assert(t.subrange(0, t.len() - (k - 1)) =~= s.subrange(0, s.len() - k));
    } else {
        assert(s.subrange(0, s.len() as int) =~= s);
    }
}

/// The bounds of the trimmed part of `v[start..end]`.
pub fn trim_bounds(v: &Vec<char>, start: usize, end: usize) -> (r: (usize, usize))
    requires
        start <= end <= v.len(),
    ensures
        start <= r.0 <= r.1 <= end,
        v@.subrange(r.0 as int, r.1 as int) == trim(v@.subrange(start as int, end as int)),
{
    let mut a = start;
    while a < end && is_whitespace(v[a])
        invariant
            start <= a <= end <= v.len(),
            forall|j: int| start <= j < a ==> is_white_space(#[trigger] v@[j]),
        decreases end - a,
    {
        a = a + 1;
    }
    let ghost s = v@.subrange(start as int, end as int);
    proof {
        assert forall|j: int| 0 <= j < a - start implies is_white_space(#[trigger] s[j]) by {
            assert(s[j] == v@[start + j]);
        }
        lemma_trim_start_skip(s, a - start);
        assert(s.subrange(a - start, s.len() as int) =~= v@.subrange(a as int, end as int));
        let t = v@.subrange(a as int, end as int);
        if t.len() > 0 {
            assert(t[0] == v@[a as int]);
        }
        assert(trim_start(t) == t);
    }
    let mut b = end;
    while b > a && is_whitespace(v[b - 1])
        invariant
            start <= a <= b <= end <= v.len(),
            forall|j: int| b <= j < end ==> is_white_space(#[trigger] v@[j]),
        decreases b - a,
    {
        b = b - 1;
    }
    proof {
        let t = v@.subrange(a as int, end as int);
        let k = end - b;
        assert forall|j: int| t.len() - k <= j < t.len() implies is_white_space(#[trigger] t[j]) by {
            assert(t[j] == v@[a + j]);
        }
        lemma_trim_end_drop(t, k);
        let u = v@.subrange(a as int, b as int);
        assert(t.subrange(0, t.len() - k) =~= u);
        if u.len() > 0 {
            assert(u.last() == v@[b - 1]);
        }
        assert(trim_end(u) == u);
    }
    (a, b)
}

/// The pieces `v[r.0..r.1]` named by `ranges`.
pub open spec fn pieces(v: Seq<char>, ranges: Seq<(usize, usize)>) -> Seq<Seq<char>> {
    Seq::new(ranges.len(), |k: int| v.subrange(ranges[k].0 as int, ranges[k].1 as int))
}

/// The bounds of the pieces of `v` separated by `sep`.
pub fn split_bounds(v: &Vec<char>, sep: char) -> (r: Vec<(usize, usize)>)
    ensures
        forall|k: int| 0 <= k < r.len() ==> (#[trigger] r[k]).0 <= r[k].1 <= v.len(),
        pieces(v@, r@) == split_on(v@, sep),
{
    let mut r: Vec<(usize, usize)> = Vec::new();
    let mut start: usize = 0;
    let mut i: usize = 0;
    proof {
        assert(pieces(v@, r@) =~= Seq::<Seq<char>>::empty());
        assert(v@.subrange(0, v.len() as int) =~= v@);
        assert(v@.subrange(0, 0) =~= Seq::<char>::empty());
    }
    while i < v.len()
        invariant
            start <= i <= v.len(),
            forall|k: int| 0 <= k < r.len() ==> (#[trigger] r[k]).0 <= r[k].1 <= v.len(),
            pieces(v@, r@) + split_from(v@.subrange(i as int, v.len() as int), sep, v@.subrange(start as int, i as int))
                == split_on(v@, sep),
        decreases v.len() - i,
    {
        let ghost rest = v@.subrange(i as int, v.len() as int);
        proof {
            assert(rest[0] == v@[i as int]);
            assert(rest.drop_first() =~= v@.subrange(i + 1, v.len() as int));
        }
        if v[i] == sep {
            let ghost old_r = r@;
            r.push((start, i));
            proof {
                assert(pieces(v@, r@) =~= pieces(v@, old_r) + seq![v@.subrange(start as int, i as int)]);
                assert(v@.subrange(i + 1, i + 1) =~= Seq::<char>::empty());
            }
            start = i + 1;
        } else {
            proof {
                assert(v@.subrange(start as int, i as int).push(v@[i as int]) =~= v@.subrange(
                    start as int,
                    i + 1,
                ));
            }
        }
        i = i + 1;
    }
    let ghost old_r = r@;
    r.push((start, i));
    proof {
        assert(v@.subrange(i as int, v.len() as int) =~= Seq::<char>::empty());
        assert(pieces(v@, r@) =~= pieces(v@, old_r) + seq![v@.subrange(start as int, i as int)]);
    }
    r
}

/// The bounds of the words of `v`.
pub fn word_bounds(v: &Vec<char>) -> (r: Vec<(usize, usize)>)
    ensures
        forall|k: int| 0 <= k < r.len() ==> (#[trigger] r[k]).0 < r[k].1 <= v.len(),
        pieces(v@, r@) == words(v@),
{
    let mut r: Vec<(usize, usize)> = Vec::new();
    let mut start: usize = 0;
    let mut i: usize = 0;
    proof {
        assert(pieces(v@, r@) =~= Seq::<Seq<char>>::empty());
        assert(v@.subrange(0, v.len() as int) =~= v@);
        assert(v@.subrange(0, 0) =~= Seq::<char>::empty());
    }
    while i < v.len()
        invariant
            start <= i <= v.len(),
            forall|k: int| 0 <= k < r.len() ==> (#[trigger] r[k]).0 < r[k].1 <= v.len(),
            pieces(v@, r@) + words_from(v@.subrange(i as int, v.len() as int), v@.subrange(start as int, i as int))
                == words(v@),
        decreases v.len() - i,
    {
        let ghost rest = v@.subrange(i as int, v.len() as int);
        proof {
            assert(rest[0] == v@[i as int]);
            assert(rest.drop_first() =~= v@.subrange(i + 1, v.len() as int));
        }
        if is_whitespace(v[i]) {
            let ghost old_r = r@;
            if start < i {
                r.push((start, i));
                proof {
                    assert(pieces(v@, r@) =~= pieces(v@, old_r) + seq![v@.subrange(start as int, i as int)]);
                }
            } else {
                proof {
                    assert(pieces(v@, r@) =~= pieces(v@, old_r) + word_if_any(v@.subrange(start as int, i as int)));
                }
            }
            proof {
                assert(v@.subrange(i + 1, i + 1) =~= Seq::<char>::empty());
            }
            start = i + 1;
        } else {
            proof {
                assert(v@.subrange(start as int, i as int).push(v@[i as int]) =~= v@.subrange(
                    start as int,
                    i + 1,
                ));
            }
        }
        i = i + 1;
    }
    let ghost old_r = r@;
    proof {
        assert(v@.subrange(i as int, v.len() as int) =~= Seq::<char>::empty());
    }
    if start < i {
        r.push((start, i));
        proof {
            assert(pieces(v@, r@) =~= pieces(v@, old_r) + seq![v@.subrange(start as int, i as int)]);
        }
    } else {
        proof {
            assert(pieces(v@, r@) =~= pieces(v@, old_r) + word_if_any(v@.subrange(start as int, i as int)));
        }
    }
    r
}

/// The words of `s`, as owned strings.
pub fn split_words(s: &str) -> (r: Vec<String>)
    ensures
        r.len() == words(s@).len(),
        forall|k: int| 0 <= k < r.len() ==> #[trigger] r[k]@ == words(s@)[k],
{
    let v = chars_of(s);
    let b = word_bounds(&v);
    let mut r: Vec<String> = Vec::new();
    for k in 0..b.len()
        invariant
            v@ == s@,
            pieces(v@, b@) == words(v@),
            forall|j: int| 0 <= j < b.len() ==> (#[trigger] b[j]).0 < b[j].1 <= v.len(),
            r.len() == k,
            forall|j: int| 0 <= j < k ==> #[trigger] r[j]@ == words(s@)[j],
    {
        let (x, y) = b[k];
        let piece = s.substring_char(x, y);
        proof {
            assert(pieces(v@, b@)[k as int] == v@.subrange(x as int, y as int));
        }
        r.push(String::from_str(piece));
    }
    r
}

/// Whether `needle` occurs in `hay`.
pub fn contains_text(hay: &Vec<char>, needle: &Vec<char>) -> (r: bool)
    ensures
        r == contains_run(hay@, needle@),
{
    if needle.len() > hay.len() {
        return false;
    }
    let n = needle.len();
    let last = hay.len() - n;
    let mut i: usize = 0;
    while i <= last
        invariant
            n == needle.len(),
            last + n == hay.len(),
            forall|p: int| 0 <= p < i ==> #[trigger] hay@.subrange(p, p + n) != needle@,
        decreases last + 1 - i,
    {
        let mut j: usize = 0;
        let mut same = true;
        while j < n
            invariant
                i <= last,
                n == needle.len(),
                last + n == hay.len(),
                j <= n,
                same == (forall|q: int| 0 <= q < j ==> hay@[i + q] == needle@[q]),
            decreases n - j,
        {
            if hay[i + j] != needle[j] {
                same = false;
            }
            j = j + 1;
        }
        if same {
            proof {
                assert(hay@.subrange(i as int, i + n) =~= needle@);
            }
            return true;
        }
        proof {
            let q = choose|q: int| 0 <= q < n && hay@[i + q] != needle@[q];
            assert(hay@.subrange(i as int, i + n)[q] != needle@[q]);
        }
        i = i + 1;
    }
    proof {
        assert forall|p: int| 0 <= p && p + needle@.len() <= hay@.len() implies #[trigger] hay@.subrange(p, p + needle@.len()) != needle@ by {
            assert(p < i);
        }
    }
    false
}

/// Why an unsigned integer could not be parsed, as `core::num::IntErrorKind`
/// distinguishes it for unsigned types.
#[derive(Debug, Clone, Copy, PartialEq, Eq, Structural)]
pub enum IntError {
    /// The text is empty.
    Empty,
    /// A character is not a digit of the radix.
    InvalidDigit,
    /// The value does not fit the target type.
    PosOverflow,
}

/// The value of `c` as a digit of `radix`, as `char::to_digit` gives it.
pub open spec fn digit_value(c: char, radix: nat) -> Option<nat> {
    let u = c as u32;
    let d: int = if 0x30 <= u <= 0x39 {
        u - 0x30
    } else if 0x61 <= u <= 0x7a {
        u - 0x61 + 10
    } else if 0x41 <= u <= 0x5a {
        u - 0x41 + 10
    } else {
        36
    };
    if d < radix {
        Some(d as nat)
    } else {
        None
    }
}

/// Reads the digits `d` left to right after the value `acc`, failing at the
/// first character that is no digit or at the first digit whose value
/// exceeds `max`.
pub open spec fn scan_digits(d: Seq<char>, acc: nat, radix: nat, max: nat) -> Result<nat, IntError>
    decreases d.len(),
{
    if d.len() == 0 {
        Ok(acc)
    } else {
        match digit_value(d[0], radix) {
            None => Err(IntError::InvalidDigit),
            Some(x) => {
                let a = acc * radix + x;
                if a > max {
                    Err(IntError::PosOverflow)
                } else {
                    scan_digits(d.drop_first(), a, radix, max)
                }
            },
        }
    }
}

/// An unsigned integer of at most `max` written in `radix`, with an optional
/// leading `+`, as `from_str_radix` of the unsigned integer types reads it.
pub open spec fn parse_unsigned(s: Seq<char>, radix: nat, max: nat) -> Result<nat, IntError> {
    if s.len() == 0 {
        Err(IntError::Empty)
    } else if (s[0] == '+' || s[0] == '-') && s.len() == 1 {
        Err(IntError::InvalidDigit)
    } else if s[0] == '+' {
        scan_digits(s.drop_first(), 0, radix, max)
    } else {
        scan_digits(s, 0, radix, max)
    }
}

proof fn lemma_scan_bounded(d: Seq<char>, acc: nat, radix: nat, max: nat)
    ensures
        scan_digits(d, acc, radix, max) matches Ok(n) ==> (n <= max || (d.len() == 0 && n == acc)),
    decreases d.len(),
{
    if d.len() > 0 {
        if let Some(x) = digit_value(d[0], radix) {
            lemma_scan_bounded(d.drop_first(), acc * radix + x, radix, max);
        }
    }
}

/// A parsed value never exceeds the bound it was parsed against.
pub proof fn lemma_parse_bounded(s: Seq<char>, radix: nat, max: nat)
    ensures
        parse_unsigned(s, radix, max) matches Ok(n) ==> n <= max,
{
    if s.len() > 0 {
        lemma_scan_bounded(s.drop_first(), 0, radix, max);
        lemma_scan_bounded(s, 0, radix, max);
    }
}

fn digit_of(c: char, radix: u32) -> (r: Option<u32>)
    requires
        2 <= radix <= 36,
    ensures
        match digit_value(c, radix as nat) {
            Some(x) => r == Some(x as u32),
            None => r is None,
        },
{
    let u = c as u32;
    let d: u32 = if 0x30 <= u && u <= 0x39 {
        u - 0x30
    } else if 0x61 <= u && u <= 0x7a {
        u - 0x61 + 10
    } else if 0x41 <= u && u <= 0x5a {
        u - 0x41 + 10
    } else {
        36
    };
    if d < radix {
        Some(d)
    } else {
        None
    }
}

/// Parses an unsigned integer of at most `max` written in `radix`.
pub fn parse_unsigned_text(s: &str, radix: u32, max: u64) -> (r: Result<u64, IntError>)
    requires
        2 <= radix <= 36,
    ensures
        match parse_unsigned(s@, radix as nat, max as nat) {
            Ok(n) => r == Ok::<u64, IntError>(n as u64),
            Err(e) => r == Err::<u64, IntError>(e),
        },
        r matches Ok(n) ==> n <= max,
{
    let v = chars_of(s);
    if v.len() == 0 {
        return Err(IntError::Empty);
    }
    if (v[0] == '+' || v[0] == '-') && v.len() == 1 {
        return Err(IntError::InvalidDigit);
    }
    let first: usize = if v[0] == '+' {
        1
    } else {
        0
    };
    let ghost d = v@.subrange(first as int, v.len() as int);
    proof {
        if first == 1 {
            assert(d =~= v@.drop_first());
        } else {
            assert(d =~= v@);
        }
    }
    let mut acc: u128 = 0;
    let mut i: usize = first;
    while i < v.len()
        invariant
            first <= i <= v.len(),
            v@ == s@,
            d == v@.subrange(first as int, v.len() as int),
            2 <= radix <= 36,
            acc <= max,
            parse_unsigned(s@, radix as nat, max as nat) == scan_digits(d, 0, radix as nat, max as nat),
            scan_digits(d, 0, radix as nat, max as nat) == scan_digits(
                v@.subrange(i as int, v.len() as int),
                acc as nat,
                radix as nat,
                max as nat,
            ),
        decreases v.len() - i,
    {
        let ghost rest = v@.subrange(i as int, v.len() as int);
        proof {
            assert(rest[0] == v@[i as int]);
            assert(rest.drop_first() =~= v@.subrange(i + 1, v.len() as int));
        }
        match digit_of(v[i], radix) {
            None => {
                return Err(IntError::InvalidDigit);
            },
            Some(x) => {
                assert(acc * (radix as u128) <= (max as u128) * 36) by (nonlinear_arith)
                    requires
                        acc <= max,
                        radix <= 36,
                ;
                let a: u128 = acc * (radix as u128) + (x as u128);
                if a > max as u128 {
                    return Err(IntError::PosOverflow);
                }
                acc = a;
            },
        }
        i = i + 1;
    }
    proof {
        assert(v@.subrange(i as int, v.len() as int) =~= Seq::<char>::empty());
    }
    Ok(acc as u64)
}

/// Parses a decimal `usize`, as `str::parse::<usize>` does.
pub fn parse_usize(s: &str) -> (r: Option<usize>)
    ensures
        match parse_unsigned(s@, 10, usize::MAX as nat) {
            Ok(n) => r == Some(n as usize),
            Err(_) => r is None,
        },
{
    proof {
        lemma_parse_bounded(s@, 10, usize::MAX as nat);
    }
    match parse_unsigned_text(s, 10, usize::MAX as u64) {
        Ok(n) => Some(n as usize),
        Err(_) => None,
    }
}

/// Parses a decimal `u32`, as `str::parse::<u32>` does.
pub fn parse_u32(s: &str) -> (r: Option<u32>)
    ensures
        match parse_unsigned(s@, 10, u32::MAX as nat) {
            Ok(n) => r == Some(n as u32),
            Err(_) => r is None,
        },
{
    proof {
        lemma_parse_bounded(s@, 10, u32::MAX as nat);
    }
    match parse_unsigned_text(s, 10, u32::MAX as u64) {
        Ok(n) => Some(n as u32),
        Err(_) => None,
    }
}

} // verus!
