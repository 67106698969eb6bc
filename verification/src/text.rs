use vstd::prelude::*;
use vstd::string::*;
use vstd::utf8::*;

verus! {

/// The error of `core::str::from_utf8`: nothing is said of what it holds.
#[verifier::external_type_specification]
#[verifier::external_body]
pub struct ExUtf8Error(core::str::Utf8Error);

/// `core::str::from_utf8` accepts exactly the well-formed UTF-8 byte strings,
/// and the string slice it hands back is made of the very bytes it was given.
/// Nothing is proved of this; it is what the standard library documents.
pub assume_specification[ core::str::from_utf8 ](v: &[u8]) -> (r: Result<
    &str,
    core::str::Utf8Error,
>)
    ensures
        r is Ok <==> valid_utf8(v@),
        r matches Ok(s) ==> s.spec_bytes() == v@,
;

/// The text that `String::from_utf8_lossy` makes of a byte string.
pub uninterp spec fn utf8_lossy(bytes: Seq<u8>) -> Seq<char>;

/// `String::from_utf8_lossy` turns any byte string into text: it puts the
/// replacement character in place of what is not well-formed UTF-8, and
/// leaves well-formed UTF-8 as it is. Here the text is handed back as a
/// `String` of its own.
#[verifier::external_body]
pub(crate) fn from_utf8_lossy(bytes: &[u8]) -> (r: String)
    ensures
        r@ == utf8_lossy(bytes@),
        valid_utf8(bytes@) ==> r@ == decode_utf8(bytes@),
{
    String::from_utf8_lossy(bytes).into_owned()
}

/// The text that `str::trim` leaves of a text.
pub uninterp spec fn trimmed(text: Seq<char>) -> Seq<char>;

/// `str::trim` hands back the text without the white space at its start
/// and at its end, white space being what Unicode calls so.
#[verifier::external_body]
pub(crate) fn trim(text: &str) -> (r: &str)
    ensures
        r@ == trimmed(text@),
{
    text.trim()
}

/// A place in `bytes` that touches an ASCII byte, or one of the two ends.
pub open spec fn is_cut(bytes: Seq<u8>, i: int) -> bool {
    &&& 0 <= i <= bytes.len()
    &&& (i == 0 || i == bytes.len() || bytes[i] < 0x80 || bytes[i - 1] < 0x80)
}

/// In well-formed UTF-8 no character straddles a cut.
pub proof fn lemma_cut_is_char_boundary(bytes: Seq<u8>, i: int)
    requires
        valid_utf8(bytes),
        is_cut(bytes, i),
    ensures
        is_char_boundary(bytes, i),
{
    if i == 0 {
    } else if i == bytes.len() {
        is_char_boundary_start_end_of_seq(bytes);
    } else if bytes[i] < 0x80 {
        is_char_boundary_iff_not_is_continuation_byte(bytes, i);
    } else {
        is_char_boundary_iff_not_is_continuation_byte(bytes, i - 1);
        valid_utf8_split(bytes, i - 1);
        let suffix = bytes.subrange(i - 1, bytes.len() as int);
        assert(suffix[0] == bytes[i - 1]);
        assert(length_of_first_scalar(suffix) == 1);
        let rest = pop_first_scalar(suffix);
        assert(valid_utf8(rest));
        assert(rest.len() > 0);
        assert(rest[0] == bytes[i]);
        assert(valid_first_scalar(rest));
        is_char_boundary_iff_not_is_continuation_byte(bytes, i);
    }
}

/// The text between two cuts of well-formed UTF-8 is well-formed UTF-8.
pub proof fn lemma_piece_valid(bytes: Seq<u8>, a: int, b: int)
    requires
        valid_utf8(bytes),
        is_cut(bytes, a),
        is_cut(bytes, b),
        a <= b,
    ensures
        valid_utf8(bytes.subrange(a, b)),
        is_char_boundary(bytes, b),
        is_char_boundary(bytes.subrange(0, b), a),
{
    lemma_cut_is_char_boundary(bytes, b);
    valid_utf8_split(bytes, b);
    let head = bytes.subrange(0, b);
    assert(is_cut(head, a)) by {
        if 0 < a < b {
            assert(head[a] == bytes[a]);
            assert(head[a - 1] == bytes[a - 1]);
        }
    }
    lemma_cut_is_char_boundary(head, a);
    valid_utf8_split(head, a);
    assert(head.subrange(a, head.len() as int) =~= bytes.subrange(a, b));
}

/// Encoding goes through concatenation.
pub proof fn lemma_encode_concat(a: Seq<char>, b: Seq<char>)
    ensures
        encode_utf8(a + b) == encode_utf8(a) + encode_utf8(b),
    decreases a.len(),
{
    if a.len() == 0 {
        assert(a + b =~= b);
        assert(encode_utf8(a) + encode_utf8(b) =~= encode_utf8(b));
    } else {
        lemma_encode_concat(a.drop_first(), b);
        assert((a + b).drop_first() =~= a.drop_first() + b);
        assert((a + b)[0] == a[0]);
        assert(encode_utf8(a + b) =~= encode_utf8(a) + encode_utf8(b));
    }
}

/// The characters of a string slice are what its bytes decode to.
pub proof fn lemma_chars_of_bytes(s: &str)
    ensures
        valid_utf8(s.spec_bytes()),
        s@ == decode_utf8(s.spec_bytes()),
{
    encode_utf8_valid_utf8(s@);
    encode_utf8_decode_utf8(s@);
}

/// Whether two byte strings are the same.
pub fn bytes_eq(a: &[u8], b: &[u8]) -> (r: bool)
    ensures
        r == (a@ == b@),
{
    if a.len() != b.len() {
        return false;
    }
    let mut i: usize = 0;
    while i < a.len()
        invariant
            i <= a.len(),
            a.len() == b.len(),
            forall|j: int| 0 <= j < i ==> a@[j] == b@[j],
        decreases a.len() - i,
    {
        if a[i] != b[i] {
            return false;
        }
        i += 1;
    }
    assert(a@ =~= b@);
    true
}

/// Whether two string slices hold the same characters.
pub fn str_eq(a: &str, b: &str) -> (r: bool)
    ensures
        r == (a@ == b@),
{
    let r = bytes_eq(a.as_bytes(), b.as_bytes());
    proof {
        lemma_chars_of_bytes(a);
        lemma_chars_of_bytes(b);
    }
    r
}

/// Whether `s` begins with the characters of `prefix`.
pub open spec fn begins_with(s: Seq<char>, prefix: Seq<char>) -> bool {
    prefix.len() <= s.len() && s.subrange(0, prefix.len() as int) == prefix
}

/// Whether `s` begins with `prefix`, for a non-empty ASCII `prefix`.
pub fn starts_with_ascii(s: &str, prefix: &str) -> (r: bool)
    requires
        is_ascii_chars(prefix@),
        prefix@.len() > 0,
    ensures
        r == begins_with(s@, prefix@),
{
    let sb = s.as_bytes();
    let pb = prefix.as_bytes();
    proof {
        lemma_chars_of_bytes(s);
        lemma_chars_of_bytes(prefix);
        is_ascii_chars_encode_utf8(prefix@);
    }
    let n = pb.len();
    if sb.len() < n {
        proof {
            if begins_with(s@, prefix@) {
                let rest = s@.subrange(prefix@.len() as int, s@.len() as int);
                assert(s@ =~= prefix@ + rest);
                lemma_encode_concat(prefix@, rest);
            }
        }
        return false;
    }
    let head = vstd::slice::slice_subrange(sb, 0, n);
    let r = bytes_eq(head, pb);
    proof {
        if r {
            assert(sb@[n - 1] == pb@[n - 1]);
            assert(sb@[n - 1] < 0x80) by {
                assert(pb@[n - 1] == prefix@[n - 1] as u8);
            }
            assert(is_cut(sb@, n as int));
            lemma_cut_is_char_boundary(sb@, n as int);
            decode_utf8_split(sb@, n as int);
            let tail = decode_utf8(sb@.subrange(n as int, sb@.len() as int));
            assert(s@ =~= prefix@ + tail);
            assert(s@.subrange(0, prefix@.len() as int) =~= prefix@);
        } else if begins_with(s@, prefix@) {
            let rest = s@.subrange(prefix@.len() as int, s@.len() as int);
            assert(s@ =~= prefix@ + rest);
            lemma_encode_concat(prefix@, rest);
            assert(sb@.subrange(0, n as int) =~= pb@);
        }
    }
    r
}

/// The text of `text` between the cuts `a` and `b`, as a string of its own.
pub fn piece(text: &str, a: usize, b: usize) -> (r: String)
    requires
        a <= b,
        is_cut(text.spec_bytes(), a as int),
        is_cut(text.spec_bytes(), b as int),
    ensures
        r@ == decode_utf8(text.spec_bytes().subrange(a as int, b as int)),
        encode_utf8(r@) == text.spec_bytes().subrange(a as int, b as int),
{
    proof {
        lemma_chars_of_bytes(text);
        lemma_piece_valid(text.spec_bytes(), a as int, b as int);
    }
    let (head, _) = text.split_at(b);
    let (_, mid) = head.split_at(a);
    proof {
        lemma_chars_of_bytes(mid);
        assert(mid.spec_bytes() =~= text.spec_bytes().subrange(a as int, b as int));
    }
    mid.to_owned()
}

/// The place of the first `d` in `s`, or the length of `s` where it holds none.
pub open spec fn first_at(s: Seq<u8>, d: u8) -> int
    decreases s.len(),
{
    if s.len() == 0 {
        0
    } else if s[0] == d {
        0
    } else {
        1 + first_at(s.drop_first(), d)
    }
}

pub proof fn lemma_first_at(s: Seq<u8>, d: u8)
    ensures
        0 <= first_at(s, d) <= s.len(),
        forall|j: int| 0 <= j < first_at(s, d) ==> s[j] != d,
        first_at(s, d) < s.len() ==> s[first_at(s, d)] == d,
    decreases s.len(),
{
    if s.len() > 0 && s[0] != d {
        let rest = s.drop_first();
        lemma_first_at(rest, d);
        assert forall|j: int| 0 <= j < first_at(s, d) implies s[j] != d by {
            if j > 0 {
                assert(rest[j - 1] == s[j]);
            }
        }
    }
}

/// The place of the first `d` is the one place that has a `d`, or the end,
/// behind a run without any.
pub proof fn lemma_first_at_is(s: Seq<u8>, d: u8, k: int)
    requires
        0 <= k <= s.len(),
        forall|j: int| 0 <= j < k ==> s[j] != d,
        k < s.len() ==> s[k] == d,
    ensures
        first_at(s, d) == k,
{
    lemma_first_at(s, d);
}

/// The pieces that the separators `d` cut `s` into. There is one more
/// piece than there are separators; a piece may be empty.
pub open spec fn split_by(s: Seq<u8>, d: u8) -> Seq<Seq<u8>>
    decreases s.len(),
{
    let i = first_at(s, d);
    if 0 <= i < s.len() {
        seq![s.subrange(0, i)] + split_by(s.subrange(i + 1, s.len() as int), d)
    } else {
        seq![s]
    }
}

/// The pieces of `s` that the ranges name.
pub open spec fn pieces(s: Seq<u8>, ranges: Seq<(usize, usize)>) -> Seq<Seq<u8>> {
    ranges.map_values(|r: (usize, usize)| s.subrange(r.0 as int, r.1 as int))
}

/// Cuts the part of `s` between `from` and `to` at each separator `d`,
/// and returns where each piece begins and ends.
pub fn split_ranges(s: &[u8], from: usize, to: usize, d: u8) -> (r: Vec<(usize, usize)>)
    requires
        from <= to <= s@.len(),
        d < 0x80,
        is_cut(s@, from as int),
        is_cut(s@, to as int),
    ensures
        pieces(s@, r@) == split_by(s@.subrange(from as int, to as int), d),
        r@.len() >= 1,
        forall|i: int|
            0 <= i < r@.len() ==> from <= (#[trigger] r@[i]).0 <= r@[i].1 <= to && is_cut(
                s@,
                r@[i].0 as int,
            ) && is_cut(s@, r@[i].1 as int),
{
    let mut ranges: Vec<(usize, usize)> = Vec::new();
    let mut start: usize = from;
    let mut j: usize = from;
    let ghost whole = split_by(s@.subrange(from as int, to as int), d);
    assert(pieces(s@, ranges@) + split_by(s@.subrange(start as int, to as int), d) =~= whole);
    while j < to
        invariant
            from <= start <= j <= to <= s@.len(),
            d < 0x80,
            is_cut(s@, start as int),
            is_cut(s@, to as int),
            whole == split_by(s@.subrange(from as int, to as int), d),
            pieces(s@, ranges@) + split_by(s@.subrange(start as int, to as int), d) == whole,
            forall|t: int| start <= t < j ==> s@[t] != d,
            forall|i: int|
                0 <= i < ranges@.len() ==> from <= (#[trigger] ranges@[i]).0 <= ranges@[i].1 <= to
                    && is_cut(s@, ranges@[i].0 as int) && is_cut(s@, ranges@[i].1 as int),
        decreases to - j,
    {
        if s[j] == d {
            proof {
                let rest = s@.subrange(start as int, to as int);
                lemma_first_at_is(rest, d, j - start);
                assert(rest.subrange(0, j - start) =~= s@.subrange(start as int, j as int));
                assert(rest.subrange(j - start + 1, rest.len() as int) =~= s@.subrange(
                    j + 1,
                    to as int,
                ));
                assert(pieces(s@, ranges@.push((start, j))) =~= pieces(s@, ranges@) + seq![
                    s@.subrange(start as int, j as int),
                ]);
                assert(pieces(s@, ranges@.push((start, j))) + split_by(
                    s@.subrange(j + 1, to as int),
                    d,
                ) =~= whole);
            }
            ranges.push((start, j));
            start = j + 1;
        }
        j += 1;
    }
    proof {
        let rest = s@.subrange(start as int, to as int);
        lemma_first_at_is(rest, d, rest.len() as int);
        assert(pieces(s@, ranges@.push((start, to))) =~= pieces(s@, ranges@) + seq![rest]);
    }
    ranges.push((start, to));
    ranges
}

/// The number that a run of decimal digits spells.
pub open spec fn decimal_value(s: Seq<u8>) -> nat
    decreases s.len(),
{
    if s.len() == 0 {
        0
    } else {
        (decimal_value(s.drop_last()) * 10 + (s.last() - 0x30)) as nat
    }
}

pub open spec fn all_digits(s: Seq<u8>) -> bool {
    forall|i: int| 0 <= i < s.len() ==> 0x30 <= #[trigger] s[i] <= 0x39
}

/// The signed 16-bit number that `s` spells in decimal: a sign, `+` or
/// `-`, may come first; at least one digit follows, and nothing else.
pub open spec fn parse_i16(s: Seq<u8>) -> Option<i16> {
    let negative = s.len() > 0 && s[0] == 0x2D;
    let signed = s.len() > 0 && (s[0] == 0x2D || s[0] == 0x2B);
    let body = if signed {
        s.drop_first()
    } else {
        s
    };
    let value = if negative {
        -(decimal_value(body) as int)
    } else {
        decimal_value(body) as int
    };
    if body.len() == 0 || !all_digits(body) || value < -0x8000 || value > 0x7FFF {
        None
    } else {
        Some(value as i16)
    }
}

proof fn lemma_decimal_value_grows(s: Seq<u8>, k: int)
    requires
        0 <= k <= s.len(),
        all_digits(s),
    ensures
        decimal_value(s.subrange(0, k)) <= decimal_value(s),
    decreases s.len() - k,
{
    if k < s.len() {
        let front = s.drop_last();
        assert(all_digits(front)) by {
            assert forall|i: int| 0 <= i < front.len() implies 0x30 <= #[trigger] front[i]
                <= 0x39 by {
                assert(front[i] == s[i]);
            }
        }
        lemma_decimal_value_grows(front, k);
        assert(front.subrange(0, k) =~= s.subrange(0, k));
        assert(0x30 <= s.last()) by {
            assert(s.last() == s[s.len() - 1]);
        }
    } else {
        assert(s.subrange(0, k) =~= s);
    }
}

/// Reads the part of `s` between `begin` and `to` as a run of decimal
/// digits that spells a number up to 32768.
fn read_digits(s: &[u8], begin: usize, to: usize) -> (r: Option<u32>)
    requires
        begin <= to <= s@.len(),
    ensures
        match r {
            Some(v) => all_digits(s@.subrange(begin as int, to as int)) && v == decimal_value(
                s@.subrange(begin as int, to as int),
            ) && v <= 0x8000,
            None => !all_digits(s@.subrange(begin as int, to as int)) || decimal_value(
                s@.subrange(begin as int, to as int),
            ) > 0x8000,
        },
{
    let ghost body = s@.subrange(begin as int, to as int);
    let mut value: u32 = 0;
    let mut j: usize = begin;
    assert(body.subrange(0, 0) =~= Seq::<u8>::empty());
    while j < to
        invariant
            begin <= j <= to <= s@.len(),
            body == s@.subrange(begin as int, to as int),
            all_digits(body.subrange(0, j - begin)),
            value == decimal_value(body.subrange(0, j - begin)),
            value <= 0x8000,
        decreases to - j,
    {
        let c = s[j];
        let ghost front = body.subrange(0, j - begin);
        let ghost next = body.subrange(0, j - begin + 1);
        proof {
            assert(next.drop_last() =~= front);
            assert(next.last() == c);
        }
        if c < 0x30 || c > 0x39 {
            assert(body[j - begin] == c);
            return None;
        }
        value = value * 10 + (c - 0x30) as u32;
        proof {
            assert forall|i: int| 0 <= i < next.len() implies 0x30 <= #[trigger] next[i]
                <= 0x39 by {
                if i < front.len() {
                    assert(front[i] == next[i]);
                }
            }
        }
        if value > 0x8000 {
            // The number is out of range if only digits follow, and no
            // number if anything else does.
            let ghost high = j + 1 - begin;
            let mut t: usize = j + 1;
            while t < to
                invariant
                    begin < t <= to <= s@.len(),
                    body == s@.subrange(begin as int, to as int),
                    all_digits(body.subrange(0, t - begin)),
                decreases to - t,
            {
                let c = s[t];
                if c < 0x30 || c > 0x39 {
                    assert(body[t - begin] == c);
                    return None;
                }
                proof {
                    let seen = body.subrange(0, t - begin);
                    let more = body.subrange(0, t - begin + 1);
                    assert forall|i: int| 0 <= i < more.len() implies 0x30 <= #[trigger] more[i]
                        <= 0x39 by {
                        if i < seen.len() {
                            assert(seen[i] == more[i]);
                        }
                    }
                }
                t += 1;
            }
            proof {
                assert(body.subrange(0, to - begin) =~= body);
                lemma_decimal_value_grows(body, high);
            }
            return None;
        }
        j += 1;
    }
    assert(body.subrange(0, j - begin) =~= body);
    Some(value)
}

/// Reads the part of `s` between `from` and `to` as a signed 16-bit
/// decimal number.
pub fn read_i16(s: &[u8], from: usize, to: usize) -> (r: Option<i16>)
    requires
        from <= to <= s@.len(),
    ensures
        r == parse_i16(s@.subrange(from as int, to as int)),
{
    let ghost text = s@.subrange(from as int, to as int);
    if from == to {
        return None;
    }
    let negative = s[from] == 0x2D;
    let signed = negative || s[from] == 0x2B;
    assert(text[0] == s@[from as int]);
    let begin = if signed {
        from + 1
    } else {
        from
    };
    assert(s@.subrange(begin as int, to as int) =~= if signed {
        text.drop_first()
    } else {
        text
    });
    if begin == to {
        return None;
    }
    match read_digits(s, begin, to) {
        None => None,
        Some(value) => {
            if negative {
                Some((-(value as i32)) as i16)
            } else if value > 0x7FFF {
                None
            } else {
                Some(value as i16)
            }
        },
    }
}

/// Whether `pattern` stands in `s` at the place `i`.
pub open spec fn stands_at(s: Seq<u8>, pattern: Seq<u8>, i: int) -> bool {
    0 <= i && i + pattern.len() <= s.len() && s.subrange(i, i + pattern.len()) == pattern
}

/// Whether `pattern` stands somewhere in `s`.
pub open spec fn holds_bytes(s: Seq<u8>, pattern: Seq<u8>) -> bool {
    exists|i: int| stands_at(s, pattern, i)
}

/// Whether `pattern` stands somewhere in `s`.
pub fn contains_bytes(s: &[u8], pattern: &[u8]) -> (r: bool)
    ensures
        r == holds_bytes(s@, pattern@),
{
    if pattern.len() > s.len() {
        assert forall|i: int| !stands_at(s@, pattern@, i) by {}
        return false;
    }
    let last = s.len() - pattern.len();
    let mut i: usize = 0;
    loop
        invariant
            i <= last,
            last + pattern@.len() == s@.len(),
            s@.len() <= usize::MAX,
            forall|j: int| 0 <= j < i ==> !stands_at(s@, pattern@, j),
        decreases last - i,
    {
        if bytes_eq(vstd::slice::slice_subrange(s, i, i + pattern.len()), pattern) {
            assert(stands_at(s@, pattern@, i as int));
            return true;
        }
        if i == last {
            assert forall|j: int| !stands_at(s@, pattern@, j) by {}
            return false;
        }
        i += 1;
    }
}

/// The place of the last `d` in `s`, or -1 where `s` holds none.
pub open spec fn last_at(s: Seq<u8>, d: u8) -> int
    decreases s.len(),
{
    if s.len() == 0 {
        -1
    } else if s.last() == d {
        s.len() - 1
    } else {
        last_at(s.drop_last(), d)
    }
}

/// Looks for the first `d` in `s`.
pub fn find_first(s: &[u8], d: u8) -> (r: Option<usize>)
    ensures
        match r {
            Some(i) => i < s@.len() && i == first_at(s@, d),
            None => first_at(s@, d) == s@.len(),
        },
{
    let mut i: usize = 0;
    while i < s.len()
        invariant
            i <= s.len(),
            forall|j: int| 0 <= j < i ==> s@[j] != d,
        decreases s.len() - i,
    {
        if s[i] == d {
            proof {
                lemma_first_at_is(s@, d, i as int);
            }
            return Some(i);
        }
        i += 1;
    }
    proof {
        lemma_first_at_is(s@, d, s@.len() as int);
    }
    None
}

/// Looks for the last `d` in `s`.
pub fn find_last(s: &[u8], d: u8) -> (r: Option<usize>)
    ensures
        match r {
            Some(i) => i < s@.len() && i == last_at(s@, d) && s@[i as int] == d,
            None => last_at(s@, d) == -1,
        },
{
    let mut i: usize = s.len();
    assert(s@.subrange(0, i as int) =~= s@);
    while i > 0
        invariant
            i <= s.len(),
            last_at(s@, d) == last_at(s@.subrange(0, i as int), d),
        decreases i,
    {
        proof {
            assert(s@.subrange(0, i as int).drop_last() =~= s@.subrange(0, i - 1));
        }
        if s[i - 1] == d {
            return Some(i - 1);
        }
        i -= 1;
    }
    None
}

} // verus!
