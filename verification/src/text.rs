//! Character-level string helpers shared by the parsers: substring search,
//! Unicode whitespace trimming, ASCII case folding, literal replacement and
//! decimal conversion, each against a short mathematical statement.

use vstd::prelude::*;
use vstd::utf8::{decode_utf8, valid_utf8};

verus! {

/// `needle` occurs in `hay` starting at index `i`.
pub open spec fn occurs_at(hay: Seq<char>, needle: Seq<char>, i: int) -> bool {
    0 <= i && i + needle.len() <= hay.len() && hay.subrange(i, i + needle.len()) == needle
}

/// `needle` occurs somewhere in `hay`.
pub open spec fn contains_seq(hay: Seq<char>, needle: Seq<char>) -> bool {
    exists|i: int| occurs_at(hay, needle, i)
}

/// `hay` begins with `prefix`.
pub open spec fn starts_with_seq(hay: Seq<char>, prefix: Seq<char>) -> bool {
    occurs_at(hay, prefix, 0)
}

/// `hay` ends with `suffix`.
pub open spec fn ends_with_seq(hay: Seq<char>, suffix: Seq<char>) -> bool {
    occurs_at(hay, suffix, hay.len() - suffix.len())
}

/// The Unicode `White_Space` property, which `char::is_whitespace` and
/// `str::trim` go by.
pub open spec fn is_white_space(c: char) -> bool {
    let u = c as u32;
    (0x9 <= u && u <= 0xd) || u == 0x20 || u == 0x85 || u == 0xa0 || u == 0x1680 || (0x2000 <= u
        && u <= 0x200a) || u == 0x2028 || u == 0x2029 || u == 0x202f || u == 0x205f || u == 0x3000
}

/// `s` without its leading whitespace.
pub open spec fn trim_start(s: Seq<char>) -> Seq<char>
    decreases s.len(),
{
    if s.len() > 0 && is_white_space(s[0]) {
        trim_start(s.drop_first())
    } else {
        s
    }
}

/// `s` without its trailing whitespace.
pub open spec fn trim_end(s: Seq<char>) -> Seq<char>
    decreases s.len(),
{
    if s.len() > 0 && is_white_space(s.last()) {
        trim_end(s.drop_last())
    } else {
        s
    }
}

/// `s` without leading and trailing whitespace (`str::trim`).
pub open spec fn trim(s: Seq<char>) -> Seq<char> {
    trim_end(trim_start(s))
}

/// ASCII lower-casing of one character (`char::to_ascii_lowercase`).
pub open spec fn ascii_lower(c: char) -> char {
    if 'A' <= c && c <= 'Z' {
        ((c as u32) + 32) as char
    } else {
        c
    }
}

/// ASCII lower-casing of a string (`str::to_ascii_lowercase`).
pub open spec fn lower_seq(s: Seq<char>) -> Seq<char> {
    s.map_values(|c: char| ascii_lower(c))
}

/// Every non-overlapping occurrence of `from`, scanned left to right,
/// replaced by `to` (`str::replace` with a non-empty pattern).
pub open spec fn replace_all(s: Seq<char>, from: Seq<char>, to: Seq<char>) -> Seq<char>
    recommends
        from.len() > 0,
    decreases s.len(),
{
    if s.len() == 0 || from.len() == 0 {
        s
    } else if starts_with_seq(s, from) {
        to + replace_all(s.skip(from.len() as int), from, to)
    } else {
        seq![s[0]] + replace_all(s.drop_first(), from, to)
    }
}

/// Replacing a text whose first character never occurs leaves the text as
/// it is.
pub proof fn lemma_replace_all_absent(s: Seq<char>, from: Seq<char>, to: Seq<char>)
    requires
        from.len() > 0,
        !s.contains(from[0]),
    ensures
        replace_all(s, from, to) == s,
    decreases s.len(),
{
    if s.len() > 0 {
        let t = s.drop_first();
        assert(!t.contains(from[0])) by {
            if t.contains(from[0]) {
                let j = choose|j: int| 0 <= j < t.len() && t[j] == from[0];
                assert(s[j + 1] == from[0]);
            }
        }
        lemma_replace_all_absent(t, from, to);
        assert(s[0] != from[0]);
        assert(!starts_with_seq(s, from)) by {
            if starts_with_seq(s, from) {
                assert(s.subrange(0, from.len() as int)[0] == s[0]);
            }
        }
        assert(seq![s[0]] + t =~= s);
    }
}

/// A prefix in which the pattern cannot start passes through unchanged.
pub proof fn lemma_replace_all_plain_prefix(a: Seq<char>, x: Seq<char>, from: Seq<char>, to: Seq<char>)
    requires
        from.len() > 0,
        !a.contains(from[0]),
    ensures
        replace_all(a + x, from, to) == a + replace_all(x, from, to),
    decreases a.len(),
{
    if a.len() > 0 {
        let t = a.drop_first();
        assert(!t.contains(from[0])) by {
            if t.contains(from[0]) {
                let j = choose|j: int| 0 <= j < t.len() && t[j] == from[0];
                assert(a[j + 1] == from[0]);
            }
        }
        lemma_replace_all_plain_prefix(t, x, from, to);
        let ax = a + x;
        assert(ax[0] == a[0]);
        assert(!starts_with_seq(ax, from)) by {
            if starts_with_seq(ax, from) {
                assert(ax.subrange(0, from.len() as int)[0] == ax[0]);
            }
        }
        assert(ax.drop_first() =~= t + x);
        assert(seq![a[0]] + (t + replace_all(x, from, to)) =~= a + replace_all(x, from, to));
    }
}

/// The pattern at the front is replaced, and the rest is scanned on.
pub proof fn lemma_replace_all_at_front(b: Seq<char>, from: Seq<char>, to: Seq<char>)
    requires
        from.len() > 0,
    ensures
        replace_all(from + b, from, to) == to + replace_all(b, from, to),
{
    let x = from + b;
    assert(x.subrange(0, from.len() as int) =~= from);
    assert(starts_with_seq(x, from));
    assert(x.skip(from.len() as int) =~= b);
}

/// A text that starts with the pattern's first character but not with the
/// pattern, and holds that character nowhere else, is left as it is.
pub proof fn lemma_replace_all_near_miss(x: Seq<char>, from: Seq<char>, to: Seq<char>)
    requires
        from.len() > 0,
        x.len() > 0,
        !starts_with_seq(x, from),
        !x.drop_first().contains(from[0]),
    ensures
        replace_all(x, from, to) == x,
{
    lemma_replace_all_absent(x.drop_first(), from, to);
    assert(seq![x[0]] + x.drop_first() =~= x);
}

/// An ASCII decimal digit.
pub open spec fn is_digit(c: char) -> bool {
    '0' <= c && c <= '9'
}

/// The value of an ASCII decimal digit.
pub open spec fn digit_value(c: char) -> nat {
    ((c as u32) - ('0' as u32)) as nat
}

/// The value of a string of ASCII decimal digits.
pub open spec fn decimal_value(s: Seq<char>) -> nat
    decreases s.len(),
{
    if s.len() == 0 {
        0
    } else {
        decimal_value(s.drop_last()) * 10 + digit_value(s.last())
    }
}

/// Every character of `s` is an ASCII decimal digit.
pub open spec fn all_digits(s: Seq<char>) -> bool {
    forall|i: int| 0 <= i < s.len() ==> is_digit(#[trigger] s[i])
}

/// The decimal digits of `n`, without leading zeros (`u64::to_string`).
pub open spec fn decimal(n: nat) -> Seq<char>
    decreases n,
{
    if n < 10 {
        seq![digit_char(n)]
    } else {
        decimal(n / 10).push(digit_char(n % 10))
    }
}

/// The ASCII digit of a value below ten.
pub open spec fn digit_char(d: nat) -> char {
    ((d + ('0' as u32)) as u32) as char
}

/// `decimal(n)` left-padded with zeros to at least `width` characters
/// (`format!("{n:0width$}")`).
pub open spec fn zero_padded(n: nat, width: nat) -> Seq<char> {
    let d = decimal(n);
    if d.len() >= width {
        d
    } else {
        Seq::new((width - d.len()) as nat, |i: int| '0') + d
    }
}

/// A Unicode scalar value: a code point that is not a surrogate.
pub open spec fn is_scalar_value(u: u32) -> bool {
    u < 0x110000 && !(0xd800 <= u && u <= 0xdfff)
}

/// `char::from_u32`: the character with code point `i`, when `i` is a
/// Unicode scalar value, as its documentation states.
pub assume_specification[ char::from_u32 ](i: u32) -> (res: Option<char>)
    ensures
        res is Some <==> is_scalar_value(i),
        res matches Some(c) ==> c as u32 == i,
;

/// What `String::from_utf8_lossy` makes of a byte string.
pub uninterp spec fn utf8_lossy(bytes: Seq<u8>) -> Seq<char>;

/// `String::from_utf8_lossy(bytes).into_owned()`. Claimed of std: the result
/// is a function of the bytes (named [`utf8_lossy`]), and a byte string that
/// is valid UTF-8 is decoded unchanged (invalid sequences become U+FFFD, which
/// is left unstated).
#[verifier::external_body]
pub(crate) fn string_from_utf8_lossy(bytes: &[u8]) -> (res: String)
    ensures
        res@ == utf8_lossy(bytes@),
        valid_utf8(bytes@) ==> res@ == decode_utf8(bytes@),
{
    String::from_utf8_lossy(bytes).into_owned()
}

/// The characters of `s`, in order.
pub fn chars_of(s: &str) -> (res: Vec<char>)
    ensures
        res@ == s@,
{
    let mut res: Vec<char> = Vec::new();
    for c in it: s.chars()
        invariant
            res@ == it.seq().take(it.index() as int),
            it.seq() == s@,
    {
        res.push(c);
    }
    res
}

/// Appends one character to a string (`String::push`).
#[verifier::external_body]
pub(crate) fn push_char(s: &mut String, c: char)
    ensures
        final(s)@ == old(s)@.push(c),
{
    s.push(c);
}

/// A `String` holding the characters of `cs[from..to]`.
pub fn string_from_range(cs: &Vec<char>, from: usize, to: usize) -> (res: String)
    requires
        from <= to <= cs@.len(),
    ensures
        res@ == cs@.subrange(from as int, to as int),
{
    let mut res = String::new();
    let mut i = from;
    while i < to
        invariant
            from <= i <= to <= cs@.len(),
            res@ == cs@.subrange(from as int, i as int),
        decreases to - i,
    {
        push_char(&mut res, cs[i]);
        i += 1;
        assert(res@ =~= cs@.subrange(from as int, i as int));
    }
    res
}

/// A `String` holding the characters of `cs`.
pub fn string_from(cs: &Vec<char>) -> (res: String)
    ensures
        res@ == cs@,
{
    let res = string_from_range(cs, 0, cs.len());
    assert(cs@.subrange(0, cs@.len() as int) =~= cs@);
    res
}

/// Whether `needle` occurs in `hay` at index `i`.
pub fn occurs_at_exec(hay: &Vec<char>, needle: &Vec<char>, i: usize) -> (res: bool)
    ensures
        res == occurs_at(hay@, needle@, i as int),
{
    if i > hay.len() || needle.len() > hay.len() - i {
        return false;
    }
    let mut k: usize = 0;
    while k < needle.len()
        invariant
            i + needle@.len() <= hay@.len(),
            hay@.len() <= usize::MAX,
            k <= needle@.len(),
            forall|j: int| 0 <= j < k ==> hay@[i + j] == needle@[j],
        decreases needle@.len() - k,
    {
        if hay[i + k] != needle[k] {
            assert(hay@.subrange(i as int, i + needle@.len())[k as int] != needle@[k as int]);
            return false;
        }
        k += 1;
    }
    assert(hay@.subrange(i as int, i + needle@.len()) =~= needle@);
    true
}

/// The first index at or after `from` where `needle` occurs in `hay`.
pub fn find_from(hay: &Vec<char>, needle: &Vec<char>, from: usize) -> (res: Option<usize>)
    ensures
        match res {
            Some(i) => from <= i && occurs_at(hay@, needle@, i as int) && forall|j: int|
                from <= j < i ==> !occurs_at(hay@, needle@, j),
            None => forall|j: int| from <= j ==> !occurs_at(hay@, needle@, j),
        },
{
    let mut i = from;
    while i < hay.len()
        invariant
            from <= i,
            forall|j: int| from <= j < i ==> !occurs_at(hay@, needle@, j),
        decreases hay@.len() - i,
    {
        if occurs_at_exec(hay, needle, i) {
            return Some(i);
        }
        i += 1;
    }
    if i == hay.len() && occurs_at_exec(hay, needle, i) {
        return Some(i);
    }
    None
}

/// Whether `needle` occurs anywhere in `hay` (`str::contains`).
pub fn contains(hay: &Vec<char>, needle: &Vec<char>) -> (res: bool)
    ensures
        res == contains_seq(hay@, needle@),
{
    match find_from(hay, needle, 0) {
        Some(i) => true,
        None => false,
    }
}

/// Whether `hay` begins with `prefix` (`str::starts_with`).
pub fn starts_with(hay: &Vec<char>, prefix: &Vec<char>) -> (res: bool)
    ensures
        res == starts_with_seq(hay@, prefix@),
{
    occurs_at_exec(hay, prefix, 0)
}

/// Whether `hay` ends with `suffix` (`str::ends_with`).
pub fn ends_with(hay: &Vec<char>, suffix: &Vec<char>) -> (res: bool)
    ensures
        res == ends_with_seq(hay@, suffix@),
{
    if suffix.len() > hay.len() {
        false
    } else {
        occurs_at_exec(hay, suffix, hay.len() - suffix.len())
    }
}

/// Whether `s` occurs in `hay` (a `str` convenience form of [`contains`]).
pub fn contains_str(hay: &Vec<char>, s: &str) -> (res: bool)
    ensures
        res == contains_seq(hay@, s@),
{
    let needle = chars_of(s);
    contains(hay, &needle)
}

/// Appends the characters of `t` to `s` (`String::push_str`).
pub fn push_str(s: &mut String, t: &str)
    ensures
        final(s)@ == old(s)@ + t@,
{
    let cs = chars_of(t);
    let mut i: usize = 0;
    while i < cs.len()
        invariant
            i <= cs@.len(),
            cs@ == t@,
            s@ == old(s)@ + cs@.take(i as int),
        decreases cs@.len() - i,
    {
        push_char(s, cs[i]);
        i += 1;
        assert(s@ =~= old(s)@ + cs@.take(i as int));
    }
    assert(cs@.take(i as int) =~= cs@);
}

/// What `format!("{:?}", s)` makes of a text: the text quoted and escaped.
pub uninterp spec fn debug_quoted(s: Seq<char>) -> Seq<char>;

/// `format!("{s:?}")` of a `str`. Claimed of std: the result is a function of
/// the text alone (named [`debug_quoted`]); the escaping rules are left
/// unstated.
#[verifier::external_body]
pub(crate) fn debug_str(s: &str) -> (res: String)
    ensures
        res@ == debug_quoted(s@),
{
    format!("{s:?}")
}

/// Whether two texts are equal (`str`'s `==`).
pub fn str_eq(a: &str, b: &str) -> (res: bool)
    ensures
        res == (a@ == b@),
{
    let x = chars_of(a);
    let y = chars_of(b);
    if x.len() != y.len() {
        return false;
    }
    let mut i: usize = 0;
    while i < x.len()
        invariant
            x@.len() == y@.len(),
            x@ == a@,
            y@ == b@,
            i <= x@.len(),
            forall|j: int| 0 <= j < i ==> x@[j] == y@[j],
        decreases x@.len() - i,
    {
        if x[i] != y[i] {
            assert(x@[i as int] != y@[i as int]);
            return false;
        }
        i += 1;
    }
    assert(x@ =~= y@);
    true
}

/// Appends the decimal digits of `n` to `s` (`write!(s, "{n}")`).
pub fn push_decimal(s: &mut String, n: u64)
    ensures
        final(s)@ == old(s)@ + decimal(n as nat),
    decreases n,
{
    if n >= 10 {
        push_decimal(s, n / 10);
    }
    let d = (n % 10) as u8;
    let c = (0x30u8 + d) as char;
    assert(c == digit_char((n % 10) as nat));
    push_char(s, c);
    assert(s@ =~= old(s)@ + decimal(n as nat));
}

/// Ten to the power `j`.
spec fn pow10(j: nat) -> nat
    decreases j,
{
    if j == 0 { 1 } else { 10 * pow10((j - 1) as nat) }
}

/// A number below `10^j` has at most `j` decimal digits.
proof fn lemma_decimal_len(n: nat, j: nat)
    requires
        n < pow10(j),
        j >= 1,
    ensures
        decimal(n).len() <= j,
    decreases j,
{
    if n >= 10 {
        let p = pow10((j - 1) as nat);
        assert(n / 10 < p) by (nonlinear_arith)
            requires
                n < 10 * p,
        ;
        if j == 1 {
            assert(p == 1);
        } else {
            lemma_decimal_len(n / 10, (j - 1) as nat);
        }
    }
}

/// The number of decimal digits of `n`.
fn digit_count(n: u64) -> (k: usize)
    ensures
        k == decimal(n as nat).len(),
        1 <= k,
    decreases n,
{
    proof {
        assert(pow10(20) == 100000000000000000000) by {
            reveal_with_fuel(pow10, 21);
        }
        lemma_decimal_len(n as nat, 20);
    }
    if n < 10 {
        1
    } else {
        let k = digit_count(n / 10);
        k + 1
    }
}

/// Appends `n` in decimal, left-padded with zeros to at least `width`
/// digits (`write!(s, "{n:0width$}")`).
pub fn push_padded(s: &mut String, n: u64, width: usize)
    ensures
        final(s)@ == old(s)@ + zero_padded(n as nat, width as nat),
{
    let k = digit_count(n);
    let ghost start = s@;
    let mut i: usize = k;
    while i < width
        invariant
            k <= i,
            i <= width || i == k,
            s@ == start + Seq::new((i - k) as nat, |j: int| '0'),
        decreases width - i,
    {
        push_char(s, '0');
        assert(s@ =~= start + Seq::new((i + 1 - k) as nat, |j: int| '0'));
        i += 1;
    }
    push_decimal(s, n);
    proof {
        if k >= width {
            assert(Seq::new(0nat, |j: int| '0') =~= Seq::<char>::empty());
            assert(s@ =~= start + zero_padded(n as nat, width as nat));
        } else {
            assert(s@ =~= start + zero_padded(n as nat, width as nat));
        }
    }
}

/// What `str::parse::<u64>` accepts: an optional `+`, then one or more
/// ASCII digits whose value fits in 64 bits.
pub open spec fn parse_u64_spec(s: Seq<char>) -> Option<u64> {
    let d = if s.len() > 0 && s[0] == '+' {
        s.drop_first()
    } else {
        s
    };
    if d.len() > 0 && all_digits(d) && decimal_value(d) <= u64::MAX {
        Some(decimal_value(d) as u64)
    } else {
        None
    }
}

proof fn lemma_decimal_value_push(s: Seq<char>, c: char)
    ensures
        decimal_value(s.push(c)) == decimal_value(s) * 10 + digit_value(c),
{
    assert(s.push(c).drop_last() =~= s);
}

proof fn lemma_decimal_value_monotone(s: Seq<char>, i: int)
    requires
        0 <= i <= s.len(),
    ensures
        decimal_value(s.take(i)) <= decimal_value(s),
    decreases s.len() - i,
{
    if i < s.len() {
        lemma_decimal_value_monotone(s, i + 1);
        lemma_decimal_value_push(s.take(i), s[i]);
        assert(s.take(i + 1) =~= s.take(i).push(s[i]));
    } else {
        assert(s.take(i) =~= s);
    }
}

/// `str::parse::<u64>`.
pub fn parse_u64(s: &str) -> (res: Option<u64>)
    ensures
        res == parse_u64_spec(s@),
{
    let cs = chars_of(s);
    let start: usize = if cs.len() > 0 && cs[0] == '+' {
        1
    } else {
        0
    };
    let ghost d = if s@.len() > 0 && s@[0] == '+' {
        s@.drop_first()
    } else {
        s@
    };
    assert(d =~= cs@.skip(start as int));
    if start >= cs.len() {
        return None;
    }
    let mut v: u64 = 0;
    let mut i = start;
    while i < cs.len()
        invariant
            start <= i <= cs@.len(),
            cs@ == s@,
            start < cs@.len(),
            d == (if s@.len() > 0 && s@[0] == '+' {
                s@.drop_first()
            } else {
                s@
            }),
            d == cs@.skip(start as int),
            all_digits(d.take(i - start)),
            v as nat == decimal_value(d.take(i - start)),
        decreases cs@.len() - i,
    {
        let c = cs[i];
        if !('0' <= c && c <= '9') {
            assert(d[i - start] == c);
            return None;
        }
        let dv = (c as u32 - '0' as u32) as u64;
        proof {
            assert(d.take(i - start + 1) =~= d.take(i - start).push(c));
            lemma_decimal_value_push(d.take(i - start), c);
        }
        if v > (u64::MAX - dv) / 10 {
            proof {
                lemma_decimal_value_monotone(d, i - start + 1);
                assert(v * 10 + dv > u64::MAX) by (nonlinear_arith)
                    requires
                        v > (u64::MAX - dv) / 10,
                        dv <= 9,
                ;
            }
            return None;
        }
        v = v * 10 + dv;
        i += 1;
    }
    assert(d.take(i - start) =~= d);
    Some(v)
}

/// `str::replace(from, to)` for a non-empty `from`, on characters.
pub fn replace_chars(s: &Vec<char>, from: &str, to: &str) -> (res: Vec<char>)
    requires
        from@.len() > 0,
    ensures
        res@ == replace_all(s@, from@, to@),
{
    let f = chars_of(from);
    let t = chars_of(to);
    let mut out: Vec<char> = Vec::new();
    let mut i: usize = 0;
    assert(s@.skip(0) =~= s@);
    while i < s.len()
        invariant
            i <= s@.len(),
            f@ == from@,
            t@ == to@,
            f@.len() > 0,
            out@ + replace_all(s@.skip(i as int), f@, t@) == replace_all(s@, f@, t@),
        decreases s@.len() - i,
    {
        let ghost rest = s@.skip(i as int);
        if occurs_at_exec(s, &f, i) {
            assert(rest.subrange(0, f@.len() as int) =~= s@.subrange(i as int, i + f@.len()));
            assert(starts_with_seq(rest, f@));
            assert(rest.skip(f@.len() as int) =~= s@.skip(i + f@.len()));
            let mut k: usize = 0;
            let ghost before = out@;
            while k < t.len()
                invariant
                    k <= t@.len(),
                    out@ == before + t@.take(k as int),
                decreases t@.len() - k,
            {
                out.push(t[k]);
                k += 1;
                assert(out@ =~= before + t@.take(k as int));
            }
            assert(t@.take(k as int) =~= t@);
            i += f.len();
            assert(out@ + replace_all(s@.skip(i as int), f@, t@) =~= before + (t@ + replace_all(rest.skip(f@.len() as int), f@, t@)));
        } else {
            assert(!occurs_at(rest, f@, 0)) by {
                if occurs_at(rest, f@, 0) {
                    assert(rest.subrange(0, f@.len() as int) =~= s@.subrange(i as int, i + f@.len()));
                }
            }
            assert(rest[0] == s@[i as int]);
            assert(rest.drop_first() =~= s@.skip(i + 1));
            let ghost before = out@;
            out.push(s[i]);
            i += 1;
            assert(out@ + replace_all(s@.skip(i as int), f@, t@) =~= before + (seq![rest[0]] + replace_all(rest.drop_first(), f@, t@)));
        }
    }
    assert(s@.skip(i as int) =~= Seq::<char>::empty());
    assert(out@ + Seq::<char>::empty() =~= out@);
    out
}

/// `char::is_whitespace`.
pub fn is_whitespace(c: char) -> (res: bool)
    ensures
        res == is_white_space(c),
{
    let u = c as u32;
    (0x9 <= u && u <= 0xd) || u == 0x20 || u == 0x85 || u == 0xa0 || u == 0x1680 || (0x2000 <= u
        && u <= 0x200a) || u == 0x2028 || u == 0x2029 || u == 0x202f || u == 0x205f || u == 0x3000
}

proof fn lemma_trim_start_skip(s: Seq<char>, i: int)
    requires
        0 <= i <= s.len(),
        forall|j: int| 0 <= j < i ==> is_white_space(#[trigger] s[j]),
    ensures
        trim_start(s) == trim_start(s.skip(i)),
    decreases i,
{
    if i > 0 {
        assert(s.skip(1) =~= s.drop_first());
        lemma_trim_start_skip(s.drop_first(), i - 1);
        assert(s.drop_first().skip(i - 1) =~= s.skip(i));
    } else {
        assert(s.skip(0) =~= s);
    }
}

proof fn lemma_trim_end_take(s: Seq<char>, j: int)
    requires
        0 <= j <= s.len(),
        forall|k: int| j <= k < s.len() ==> is_white_space(#[trigger] s[k]),
    ensures
        trim_end(s) == trim_end(s.take(j)),
    decreases s.len() - j,
{
    if j < s.len() {
        assert(s.take(s.len() - 1) =~= s.drop_last());
        lemma_trim_end_take(s.drop_last(), j);
        assert(s.drop_last().take(j) =~= s.take(j));
    } else {
        assert(s.take(j) =~= s);
    }
}

/// The bounds `[start, end)` of `trim(cs)` inside `cs`.
pub fn trim_bounds(cs: &Vec<char>) -> (res: (usize, usize))
    ensures
        res.0 <= res.1 <= cs@.len(),
        cs@.subrange(res.0 as int, res.1 as int) == trim(cs@),
{
    let mut i: usize = 0;
    while i < cs.len() && is_whitespace(cs[i])
        invariant
            i <= cs@.len(),
            forall|j: int| 0 <= j < i ==> is_white_space(#[trigger] cs@[j]),
        decreases cs@.len() - i,
    {
        i += 1;
    }
    proof {
        lemma_trim_start_skip(cs@, i as int);
    }
    let ghost rest = cs@.skip(i as int);
    assert(trim_start(rest) == rest);
    let mut j: usize = cs.len();
    while j > i && is_whitespace(cs[j - 1])
        invariant
            i <= j <= cs@.len(),
            forall|k: int| j <= k < cs@.len() ==> is_white_space(#[trigger] cs@[k]),
        decreases j,
    {
        j -= 1;
    }
    proof {
        let n = (j - i) as int;
        assert forall|k: int| n <= k < rest.len() implies is_white_space(#[trigger] rest[k]) by {
            assert(rest[k] == cs@[i + k]);
        }
        lemma_trim_end_take(rest, n);
        assert(rest.take(n) =~= cs@.subrange(i as int, j as int));
        let t = cs@.subrange(i as int, j as int);
        if t.len() > 0 {
            assert(t.last() == cs@[j - 1]);
        }
    }
    (i, j)
}

/// `str::trim`, on characters.
pub fn trim_chars(cs: &Vec<char>) -> (res: Vec<char>)
    ensures
        res@ == trim(cs@),
{
    let (a, b) = trim_bounds(cs);
    let mut res: Vec<char> = Vec::new();
    let mut k = a;
    while k < b
        invariant
            a <= k <= b <= cs@.len(),
            res@ == cs@.subrange(a as int, k as int),
        decreases b - k,
    {
        res.push(cs[k]);
        k += 1;
        assert(res@ =~= cs@.subrange(a as int, k as int));
    }
    res
}

/// `s` without its leading `c`s.
pub open spec fn strip_start(s: Seq<char>, c: char) -> Seq<char>
    decreases s.len(),
{
    if s.len() > 0 && s[0] == c {
        strip_start(s.drop_first(), c)
    } else {
        s
    }
}

/// `s` without its trailing `c`s.
pub open spec fn strip_end(s: Seq<char>, c: char) -> Seq<char>
    decreases s.len(),
{
    if s.len() > 0 && s.last() == c {
        strip_end(s.drop_last(), c)
    } else {
        s
    }
}

/// `trim_start` drops a prefix and leaves no leading whitespace.
proof fn lemma_trim_start_shape(s: Seq<char>)
    ensures
        trim_start(s).len() <= s.len(),
        trim_start(s) == s.skip(s.len() - trim_start(s).len()),
        trim_start(s).len() > 0 ==> !is_white_space(trim_start(s)[0]),
    decreases s.len(),
{
    if s.len() > 0 && is_white_space(s[0]) {
        let f = s.drop_first();
        lemma_trim_start_shape(f);
        assert(trim_start(s) == trim_start(f));
        assert(f.skip(f.len() - trim_start(s).len()) =~= s.skip(s.len() - trim_start(s).len()));
    } else {
        assert(s.skip(0) =~= s);
    }
}

/// `trim_end` keeps a prefix and leaves no trailing whitespace.
proof fn lemma_trim_end_shape(s: Seq<char>)
    ensures
        trim_end(s).len() <= s.len(),
        trim_end(s) == s.take(trim_end(s).len() as int),
        trim_end(s).len() > 0 ==> !is_white_space(trim_end(s).last()),
    decreases s.len(),
{
    if s.len() > 0 && is_white_space(s.last()) {
        let l = s.drop_last();
        lemma_trim_end_shape(l);
        assert(trim_end(s) == trim_end(l));
        assert(l.take(trim_end(s).len() as int) =~= s.take(trim_end(s).len() as int));
    } else {
        assert(s.take(s.len() as int) =~= s);
    }
}

/// Trimming twice is trimming once.
pub proof fn lemma_trim_idempotent(s: Seq<char>)
    ensures
        trim(trim(s)) == trim(s),
{
    let u = trim_start(s);
    let t = trim_end(u);
    lemma_trim_start_shape(s);
    lemma_trim_end_shape(u);
    if t.len() > 0 {
        assert(t[0] == u[0]);
        assert(trim_start(t) == t);
    } else {
        assert(trim_start(t) == t);
    }
    lemma_trim_end_shape(t);
    if t.len() > 0 {
        assert(trim_end(t) == t);
    }
}

/// Every character that `trim_start`, `trim_end`, `strip_start` and
/// `strip_end` keep comes from the input: a property of all of the input's
/// characters holds of all of the result's.
pub proof fn lemma_trims_keep_chars(s: Seq<char>, c: char, p: spec_fn(char) -> bool)
    requires
        forall|i: int| 0 <= i < s.len() ==> p(#[trigger] s[i]),
    ensures
        forall|i: int| 0 <= i < trim_start(s).len() ==> p(#[trigger] trim_start(s)[i]),
        forall|i: int| 0 <= i < trim_end(s).len() ==> p(#[trigger] trim_end(s)[i]),
        forall|i: int| 0 <= i < strip_start(s, c).len() ==> p(#[trigger] strip_start(s, c)[i]),
        forall|i: int| 0 <= i < strip_end(s, c).len() ==> p(#[trigger] strip_end(s, c)[i]),
    decreases s.len(),
{
    if s.len() > 0 {
        let f = s.drop_first();
        let l = s.drop_last();
        assert forall|i: int| 0 <= i < f.len() implies p(#[trigger] f[i]) by {
            assert(f[i] == s[i + 1]);
        }
        assert forall|i: int| 0 <= i < l.len() implies p(#[trigger] l[i]) by {
            assert(l[i] == s[i]);
        }
        lemma_trims_keep_chars(f, c, p);
        lemma_trims_keep_chars(l, c, p);
        if is_white_space(s[0]) {
            assert(trim_start(s) == trim_start(f));
        } else {
            assert(trim_start(s) == s);
        }
        if is_white_space(s.last()) {
            assert(trim_end(s) == trim_end(l));
        } else {
            assert(trim_end(s) == s);
        }
        if s[0] == c {
            assert(strip_start(s, c) == strip_start(f, c));
        } else {
            assert(strip_start(s, c) == s);
        }
        if s.last() == c {
            assert(strip_end(s, c) == strip_end(l, c));
        } else {
            assert(strip_end(s, c) == s);
        }
    }
}

proof fn lemma_strip_start_skip(s: Seq<char>, c: char, i: int)
    requires
        0 <= i <= s.len(),
        forall|j: int| 0 <= j < i ==> #[trigger] s[j] == c,
    ensures
        strip_start(s, c) == strip_start(s.skip(i), c),
    decreases i,
{
    if i > 0 {
        lemma_strip_start_skip(s.drop_first(), c, i - 1);
        assert(s.drop_first().skip(i - 1) =~= s.skip(i));
    } else {
        assert(s.skip(0) =~= s);
    }
}

proof fn lemma_strip_end_take(s: Seq<char>, c: char, j: int)
    requires
        0 <= j <= s.len(),
        forall|k: int| j <= k < s.len() ==> #[trigger] s[k] == c,
    ensures
        strip_end(s, c) == strip_end(s.take(j), c),
    decreases s.len() - j,
{
    if j < s.len() {
        lemma_strip_end_take(s.drop_last(), c, j);
        assert(s.drop_last().take(j) =~= s.take(j));
    } else {
        assert(s.take(j) =~= s);
    }
}

/// `str::trim_matches(c)` for one character, on characters.
pub fn trim_matches_char(cs: &Vec<char>, c: char) -> (res: Vec<char>)
    ensures
        res@ == strip_end(strip_start(cs@, c), c),
{
    let mut i: usize = 0;
    while i < cs.len() && cs[i] == c
        invariant
            i <= cs@.len(),
            forall|j: int| 0 <= j < i ==> #[trigger] cs@[j] == c,
        decreases cs@.len() - i,
    {
        i += 1;
    }
    proof {
        lemma_strip_start_skip(cs@, c, i as int);
    }
    let ghost rest = cs@.skip(i as int);
    assert(strip_start(rest, c) == rest);
    let mut j: usize = cs.len();
    while j > i && cs[j - 1] == c
        invariant
            i <= j <= cs@.len(),
            forall|k: int| j <= k < cs@.len() ==> #[trigger] cs@[k] == c,
        decreases j,
    {
        j -= 1;
    }
    proof {
        let n = (j - i) as int;
        assert forall|k: int| n <= k < rest.len() implies #[trigger] rest[k] == c by {
            assert(rest[k] == cs@[i + k]);
        }
        lemma_strip_end_take(rest, c, n);
        assert(rest.take(n) =~= cs@.subrange(i as int, j as int));
        let t = cs@.subrange(i as int, j as int);
        if t.len() > 0 {
            assert(t.last() == cs@[j - 1]);
        }
    }
    let mut res: Vec<char> = Vec::new();
    let mut k = i;
    while k < j
        invariant
            i <= k <= j <= cs@.len(),
            res@ == cs@.subrange(i as int, k as int),
        decreases j - k,
    {
        res.push(cs[k]);
        k += 1;
        assert(res@ =~= cs@.subrange(i as int, k as int));
    }
    res
}

/// `char::to_ascii_lowercase`.
pub fn to_ascii_lower(c: char) -> (res: char)
    ensures
        res == ascii_lower(c),
{
    if 'A' <= c && c <= 'Z' {
        let b = (c as u8) + 32;
        b as char
    } else {
        c
    }
}

} // verus!
