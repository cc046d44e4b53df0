use vstd::prelude::*;
use vstd::utf8::*;
use vstd::string::*;

verus! {

broadcast use vstd::seq::group_seq_axioms;

/// The characters that `char::is_whitespace` accepts: those with the Unicode
/// property `White_Space`.
pub open spec fn is_white(c: char) -> bool {
    let u = c as u32;
    ||| 0x9 <= u <= 0xd
    ||| u == 0x20
    ||| u == 0x85
    ||| u == 0xa0
    ||| u == 0x1680
    ||| 0x2000 <= u <= 0x200a
    ||| u == 0x2028
    ||| u == 0x2029
    ||| u == 0x202f
    ||| u == 0x205f
    ||| u == 0x3000
}

/// `s` without its leading white space.
pub open spec fn trim_start(s: Seq<char>) -> Seq<char>
    decreases s.len(),
{
    if s.len() > 0 && is_white(s[0]) {
        trim_start(s.drop_first())
    } else {
        s
    }
}

/// `s` without its trailing white space.
pub open spec fn trim_end(s: Seq<char>) -> Seq<char>
    decreases s.len(),
{
    if s.len() > 0 && is_white(s.last()) {
        trim_end(s.drop_last())
    } else {
        s
    }
}

/// `s` without its leading and trailing white space.
pub open spec fn trim(s: Seq<char>) -> Seq<char> {
    trim_end(trim_start(s))
}

/// The position of the first `c` in `s`, if there is one.
pub open spec fn first_index_of(s: Seq<char>, c: char) -> Option<int> {
    if exists|i: int| 0 <= i < s.len() && s[i] == c {
        Some(choose|i: int| 0 <= i < s.len() && s[i] == c && forall|j: int| 0 <= j < i ==> s[j] != c)
    } else {
        None
    }
}

/// `n` spaces.
pub open spec fn spaces(n: nat) -> Seq<char> {
    Seq::new(n, |i: int| ' ')
}

/// `n` space bytes.
pub open spec fn space_bytes(n: nat) -> Seq<u8> {
    Seq::new(n, |i: int| 0x20u8)
}

/// Whether the UTF-8 encoding of `s` is `expected`.
pub fn text_is(s: &str, expected: &[u8]) -> (res: bool)
    ensures
        res == (s.spec_bytes() == expected@),
{
    let b = s.as_bytes();
    if b.len() != expected.len() {
        return false;
    }
    let mut i: usize = 0;
    while i < b.len()
        invariant
            b@ == s.spec_bytes(),
            b@.len() == expected@.len(),
            0 <= i <= b@.len(),
            forall|k: int| 0 <= k < i ==> b@[k] == expected@[k],
        decreases b@.len() - i,
    {
        if b[i] != expected[i] {
            return false;
        }
        i = i + 1;
    }
    assert(b@ =~= expected@);
    true
}

/// Calls `std::str::from_utf8`, which accepts exactly the byte strings that
/// are valid UTF-8 and then returns the string they encode.
#[verifier::external_body]
pub(crate) fn str_from_utf8(bytes: &[u8]) -> (res: Option<&str>)
    ensures
        res is Some <==> valid_utf8(bytes@),
        res matches Some(s) ==> s.spec_bytes() == bytes@,
{
    std::str::from_utf8(bytes).ok()
}

/// Calls `str::trim`, which removes the leading and trailing characters for
/// which `char::is_whitespace` holds.
#[verifier::external_body]
pub(crate) fn str_trim(s: &str) -> (res: &str)
    ensures
        res@ == trim(s@),
{
    s.trim()
}

/// Calls `str::split_once` with a character: the text before the first
/// occurrence of `c` and the text after it, or `None` where `c` does not occur.
#[verifier::external_body]
pub(crate) fn str_split_once(s: &str, c: char) -> (res: Option<(&str, &str)>)
    ensures
        res is None <==> first_index_of(s@, c) is None,
        res matches Some(p) ==> p.0@ == s@.take(first_index_of(s@, c)->0) && p.1@ == s@.skip(
            first_index_of(s@, c)->0 + 1,
        ),
{
    s.split_once(c)
}

/// The UTF-8 encoding of two strings one after the other is the encoding of
/// the first followed by the encoding of the second.
pub proof fn lemma_encode_concat(a: Seq<char>, b: Seq<char>)
    ensures
        encode_utf8(a + b) == encode_utf8(a) + encode_utf8(b),
    decreases a.len(),
{
    if a.len() == 0 {
        assert(a + b =~= b);
    } else {
        lemma_encode_concat(a.drop_first(), b);
        assert((a + b).drop_first() =~= a.drop_first() + b);
        assert((a + b)[0] == a[0]);
    }
}

/// A character encodes to a single byte exactly when it is below 0x80, and
/// then that byte is its code.
pub proof fn lemma_encode_ascii_char(c: char)
    requires
        (c as u32) < 0x80,
    ensures
        encode_utf8(seq![c]) == seq![c as u32 as u8],
{
    let u = c as u32;
    assert(seq![c].drop_first() =~= Seq::<char>::empty());
    assert((u & 0x7f) as u8 == u as u8) by (bit_vector)
        requires
            u < 0x80,
    ;
    assert(encode_scalar(u) =~= seq![u as u8]);
    assert(seq![c][0] == c);
    assert(encode_utf8(Seq::<char>::empty()) =~= Seq::<u8>::empty());
    assert(encode_utf8(seq![c]) =~= encode_scalar(u) + encode_utf8(Seq::<char>::empty()));
}

/// The encoding of `n` spaces is `n` space bytes.
pub proof fn lemma_encode_spaces(n: nat)
    ensures
        encode_utf8(spaces(n)) == space_bytes(n),
    decreases n,
{
    if n > 0 {
        lemma_encode_spaces((n - 1) as nat);
        assert(spaces(n) =~= seq![' '] + spaces((n - 1) as nat));
        assert(space_bytes(n) =~= seq![0x20u8] + space_bytes((n - 1) as nat));
        lemma_encode_concat(seq![' '], spaces((n - 1) as nat));
        lemma_encode_ascii_char(' ');
    }
}

/// Only the empty string has an empty encoding.
pub proof fn lemma_encode_empty(s: Seq<char>)
    ensures
        encode_utf8(s).len() == 0 <==> s.len() == 0,
{
    if s.len() > 0 {
        assert(encode_scalar(s[0] as u32).len() > 0);
    }
}

/// Appending spaces does not change what remains once trailing white space
/// is removed.
pub proof fn lemma_trim_end_spaces(s: Seq<char>, n: nat)
    ensures
        trim_end(s + spaces(n)) == trim_end(s),
    decreases n,
{
    if n > 0 {
        let t = s + spaces(n);
        assert(t.last() == ' ');
        assert(t.drop_last() =~= s + spaces((n - 1) as nat));
        lemma_trim_end_spaces(s, (n - 1) as nat);
    } else {
        assert(s + spaces(0) =~= s);
    }
}

/// A string that does not start with white space keeps its start when
/// anything is appended.
pub proof fn lemma_trim_start_append(s: Seq<char>, t: Seq<char>)
    requires
        s.len() > 0,
        !is_white(s[0]),
    ensures
        trim_start(s + t) == s + t,
{
    assert((s + t)[0] == s[0]);
}

/// A trimmed string followed by spaces trims back to itself.
pub proof fn lemma_trim_padded(s: Seq<char>, n: nat)
    requires
        trim(s) == s,
    ensures
        trim(s + spaces(n)) == s,
    decreases s.len(),
{
    if s.len() == 0 {
        lemma_trim_all_spaces(n);
        assert(s + spaces(n) =~= spaces(n));
    } else {
        lemma_trim_clean_start(s);
        lemma_trim_start_append(s, spaces(n));
        lemma_trim_end_spaces(s, n);
        lemma_trim_clean_end(s);
    }
}

/// Spaces alone trim to nothing.
pub proof fn lemma_trim_all_spaces(n: nat)
    ensures
        trim(spaces(n)) == Seq::<char>::empty(),
    decreases n,
{
    if n > 0 {
        assert(spaces(n).drop_first() =~= spaces((n - 1) as nat));
        lemma_trim_all_spaces((n - 1) as nat);
    } else {
        assert(spaces(0) =~= Seq::<char>::empty());
    }
}

/// A trimmed, non-empty string does not start with white space.
pub proof fn lemma_trim_clean_start(s: Seq<char>)
    requires
        trim(s) == s,
        s.len() > 0,
    ensures
        !is_white(s[0]),
        trim_start(s) == s,
{
    lemma_trim_start_shrinks(s);
    lemma_trim_end_shrinks(trim_start(s));
    if is_white(s[0]) {
        lemma_trim_start_shrinks(s.drop_first());
        assert(trim_start(s).len() < s.len());
    }
}

/// A trimmed, non-empty string does not end with white space.
pub proof fn lemma_trim_clean_end(s: Seq<char>)
    requires
        trim(s) == s,
    ensures
        trim_end(s) == s,
{
    lemma_trim_start_shrinks(s);
    lemma_trim_end_shrinks(trim_start(s));
    if s.len() > 0 {
        lemma_trim_clean_start(s);
    } else {
        assert(trim_start(s) == s);
    }
}

/// Removing leading white space keeps a suffix.
pub proof fn lemma_trim_start_shrinks(s: Seq<char>)
    ensures
        trim_start(s).len() <= s.len(),
        trim_start(s) == s.skip(s.len() - trim_start(s).len()),
    decreases s.len(),
{
    if s.len() > 0 && is_white(s[0]) {
        lemma_trim_start_shrinks(s.drop_first());
        assert(s.drop_first().skip(s.drop_first().len() - trim_start(s).len()) =~= s.skip(
            s.len() - trim_start(s).len(),
        ));
    } else {
        assert(s.skip(0) =~= s);
    }
}

/// Removing trailing white space keeps a prefix.
pub proof fn lemma_trim_end_shrinks(s: Seq<char>)
    ensures
        trim_end(s).len() <= s.len(),
        trim_end(s) == s.take(trim_end(s).len() as int),
    decreases s.len(),
{
    if s.len() > 0 && is_white(s.last()) {
        lemma_trim_end_shrinks(s.drop_last());
        assert(s.drop_last().take(trim_end(s).len() as int) =~= s.take(trim_end(s).len() as int));
    } else {
        assert(s.take(s.len() as int) =~= s);
    }
}

/// A string is its own trim exactly when it is empty or starts and ends
/// with a character that is not white space.
pub proof fn lemma_trimmed_iff(s: Seq<char>)
    ensures
        trim(s) == s <==> (s.len() == 0 || (!is_white(s[0]) && !is_white(s.last()))),
{
    lemma_trim_start_shrinks(s);
    lemma_trim_end_shrinks(trim_start(s));
    if s.len() > 0 && !is_white(s[0]) && !is_white(s.last()) {
        assert(trim_start(s) == s);
        assert(trim_end(s) == s);
    }
    if trim(s) == s && s.len() > 0 {
        lemma_trim_clean_start(s);
        lemma_trim_clean_end(s);
        if is_white(s.last()) {
            lemma_trim_end_shrinks(s.drop_last());
            assert(trim_end(s).len() < s.len());
        }
    }
}

/// The first occurrence of `c` in `s` is at `k` when `s[k]` is `c` and no
/// earlier character is.
pub proof fn lemma_first_index_at(s: Seq<char>, c: char, k: int)
    requires
        0 <= k < s.len(),
        s[k] == c,
        forall|j: int| 0 <= j < k ==> s[j] != c,
    ensures
        first_index_of(s, c) == Some(k),
{
    let i = choose|i: int| 0 <= i < s.len() && s[i] == c && forall|j: int| 0 <= j < i ==> s[j] != c;
    assert(0 <= i < s.len() && s[i] == c && forall|j: int| 0 <= j < i ==> s[j] != c);
    if i < k {
        assert(s[i] != c);
    }
    if i > k {
        assert(s[k] != c);
    }
}

/// Whether a byte is an ASCII decimal digit.
pub open spec fn is_digit_byte(b: u8) -> bool {
    0x30 <= b <= 0x39
}

/// Whether every byte of `bs` is an ASCII decimal digit.
pub open spec fn all_digits(bs: Seq<u8>) -> bool {
    forall|i: int| 0 <= i < bs.len() ==> is_digit_byte(#[trigger] bs[i])
}

/// The number that the decimal digits `bs` spell, most significant first.
pub open spec fn digits_value(bs: Seq<u8>) -> int
    decreases bs.len(),
{
    if bs.len() == 0 {
        0
    } else {
        digits_value(bs.drop_last()) * 10 + (bs.last() - 0x30)
    }
}

/// What `str::parse::<usize>` gives for the text whose UTF-8 encoding is
/// `bs`: an optional `+` followed by at least one ASCII digit, and nothing
/// else, spelling a number that fits in a `usize`.
pub open spec fn parse_usize_spec(bs: Seq<u8>) -> Option<usize> {
    let ds = if bs.len() > 0 && bs[0] == 0x2b {
        bs.drop_first()
    } else {
        bs
    };
    if ds.len() > 0 && all_digits(ds) && digits_value(ds) <= usize::MAX {
        Some(digits_value(ds) as usize)
    } else {
        None
    }
}

/// The decimal digits of `n`, most significant first, without leading zeros.
pub open spec fn decimal_bytes(n: nat) -> Seq<u8>
    decreases n,
{
    if n < 10 {
        seq![(0x30 + n) as u8]
    } else {
        decimal_bytes(n / 10).push((0x30 + n % 10) as u8)
    }
}

proof fn lemma_digits_value_nonneg(bs: Seq<u8>)
    requires
        all_digits(bs),
    ensures
        digits_value(bs) >= 0,
    decreases bs.len(),
{
    if bs.len() > 0 {
        lemma_digits_value_nonneg(bs.drop_last());
    }
}

/// Appending digits never makes the number smaller.
proof fn lemma_digits_value_prefix(bs: Seq<u8>, k: int)
    requires
        all_digits(bs),
        0 <= k <= bs.len(),
    ensures
        digits_value(bs.take(k)) <= digits_value(bs),
    decreases bs.len() - k,
{
    if k < bs.len() {
        lemma_digits_value_prefix(bs, k + 1);
        assert(bs.take(k + 1).drop_last() =~= bs.take(k));
        lemma_digits_value_nonneg(bs.take(k));
    } else {
        assert(bs.take(k) =~= bs);
    }
}

/// `decimal_bytes(n)` is a non-empty string of digits that spells `n`.
pub proof fn lemma_decimal_bytes(n: nat)
    ensures
        decimal_bytes(n).len() > 0,
        all_digits(decimal_bytes(n)),
        digits_value(decimal_bytes(n)) == n,
    decreases n,
{
    if n >= 10 {
        lemma_decimal_bytes(n / 10);
        let d = decimal_bytes(n);
        assert(d.drop_last() =~= decimal_bytes(n / 10));
        assert(d.last() == (0x30 + n % 10) as u8);
        assert((n / 10) * 10 + n % 10 == n) by (nonlinear_arith);
        assert(digits_value(d) == digits_value(d.drop_last()) * 10 + (d.last() - 0x30));
        assert(all_digits(d)) by {
            assert forall|i: int| 0 <= i < d.len() implies is_digit_byte(#[trigger] d[i]) by {
                if i < d.len() - 1 {
                    assert(d[i] == decimal_bytes(n / 10)[i]);
                }
            }
        }
    } else {
        let d = seq![(0x30 + n) as u8];
        assert(d.drop_last() =~= Seq::<u8>::empty());
        assert(digits_value(d) == digits_value(d.drop_last()) * 10 + (d.last() - 0x30));
    }
}

/// Text that `usize::to_string` wrote parses back to the same number.
pub proof fn lemma_parse_decimal(n: usize)
    ensures
        parse_usize_spec(decimal_bytes(n as nat)) == Some(n),
{
    lemma_decimal_bytes(n as nat);
}

/// Bytes below 0x80 are valid UTF-8, and each encodes the character with its
/// own code.
pub proof fn lemma_ascii_bytes(bs: Seq<u8>)
    requires
        forall|i: int| 0 <= i < bs.len() ==> #[trigger] bs[i] < 0x80,
    ensures
        valid_utf8(bs),
        decode_utf8(bs) == Seq::new(bs.len(), |i: int| bs[i] as char),
    decreases bs.len(),
{
    if bs.len() > 0 {
        lemma_ascii_bytes(bs.drop_first());
        assert(valid_first_scalar(bs));
        assert(pop_first_scalar(bs) =~= bs.drop_first());
        let b0 = bs[0];
        assert((b0 & 0x7f) == b0) by (bit_vector)
            requires
                b0 < 0x80,
        ;
        assert(decode_first_scalar(bs) == b0 as u32);
        assert(decode_utf8(bs) =~= Seq::new(bs.len(), |i: int| bs[i] as char));
    }
}

/// ASCII characters encode to one byte each.
pub proof fn lemma_encode_ascii(s: Seq<char>)
    requires
        forall|i: int| 0 <= i < s.len() ==> (#[trigger] s[i] as u32) < 0x80,
    ensures
        encode_utf8(s) == Seq::new(s.len(), |i: int| s[i] as u32 as u8),
    decreases s.len(),
{
    if s.len() > 0 {
        lemma_encode_ascii(s.drop_first());
        assert(s =~= seq![s[0]] + s.drop_first());
        lemma_encode_concat(seq![s[0]], s.drop_first());
        lemma_encode_ascii_char(s[0]);
        assert(encode_utf8(s) =~= Seq::new(s.len(), |i: int| s[i] as u32 as u8));
    }
}

/// Parses text the way `str::parse::<usize>` does.
pub fn parse_usize(s: &str) -> (res: Option<usize>)
    ensures
        res == parse_usize_spec(s.spec_bytes()),
{
    let b = s.as_bytes();
    let n = b.len();
    let ghost bs = b@;
    let mut i: usize = 0;
    if n > 0 && b[0] == 0x2b {
        i = 1;
    }
    let start = i;
    let ghost ds = if bs.len() > 0 && bs[0] == 0x2b {
        bs.drop_first()
    } else {
        bs
    };
    assert(ds =~= bs.skip(start as int));
    if i == n {
        return None;
    }
    let mut v: usize = 0;
    while i < n
        invariant
            b@ == bs,
            bs == s.spec_bytes(),
            ds == (if bs.len() > 0 && bs[0] == 0x2b {
                bs.drop_first()
            } else {
                bs
            }),
            n == bs.len(),
            ds == bs.skip(start as int),
            start <= i <= n,
            start < n,
            all_digits(ds.take(i - start)),
            v == digits_value(ds.take(i - start)),
        decreases n - i,
    {
        let c = b[i];
        if c < 0x30 || c > 0x39 {
            assert(ds[i - start] == c);
            assert(!is_digit_byte(ds[i - start]));
            return None;
        }
        let d = (c - 0x30) as usize;
        if v > (usize::MAX - d) / 10 {
            proof {
                let t = ds.take(i - start + 1);
                assert(t.drop_last() =~= ds.take(i - start));
                assert(t.last() == c);
                assert(digits_value(t) > usize::MAX) by (nonlinear_arith)
                    requires
                        digits_value(t) == v * 10 + d,
                        v > (usize::MAX - d) / 10,
                        d <= 9,
                ;
                if all_digits(ds) {
                    lemma_digits_value_prefix(ds, i - start + 1);
                }
            }
            return None;
        }
        proof {
            let t = ds.take(i - start + 1);
            assert(t.drop_last() =~= ds.take(i - start));
            assert(t.last() == c);
            assert(v * 10 + d <= usize::MAX) by (nonlinear_arith)
                requires
                    v <= (usize::MAX - d) / 10,
                    d <= 9,
            ;
            assert(all_digits(t)) by {
                assert forall|k: int| 0 <= k < t.len() implies is_digit_byte(#[trigger] t[k]) by {
                    if k < t.len() - 1 {
                        assert(t[k] == ds.take(i - start)[k]);
                    }
                }
            }
        }
        v = v * 10 + d;
        i = i + 1;
    }
    assert(ds.take(n - start) =~= ds);
    Some(v)
}

/// Appends the decimal digits of `n` to `out`.
fn push_decimal(out: &mut Vec<u8>, n: usize)
    ensures
        final(out)@ == old(out)@ + decimal_bytes(n as nat),
    decreases n,
{
    if n >= 10 {
        push_decimal(out, n / 10);
    }
    out.push(0x30 + (n % 10) as u8);
    proof {
        if n < 10 {
            assert(decimal_bytes(n as nat) =~= seq![(0x30 + n) as u8]);
        }
    }
}

/// The decimal digits of `n` as characters.
pub open spec fn decimal_chars(n: nat) -> Seq<char> {
    Seq::new(decimal_bytes(n).len(), |i: int| decimal_bytes(n)[i] as char)
}

/// A number below `10^k` has at most `k` digits.
pub proof fn lemma_decimal_len(n: nat, k: nat)
    requires
        k >= 1,
        n < pow10(k),
    ensures
        decimal_bytes(n).len() <= k,
    decreases n,
{
    if n >= 10 {
        assert(pow10(k) == 10 * pow10((k - 1) as nat));
        if k == 1 {
            assert(pow10(0) == 1);
        }
        assert(n / 10 < pow10((k - 1) as nat));
        lemma_decimal_len(n / 10, (k - 1) as nat);
    }
}

/// `10^k`.
pub open spec fn pow10(k: nat) -> nat
    decreases k,
{
    if k == 0 {
        1
    } else {
        10 * pow10((k - 1) as nat)
    }
}

/// The decimal text of `n`, as `usize::to_string` writes it.
pub fn usize_to_string(n: usize) -> (res: String)
    ensures
        encode_utf8(res@) == decimal_bytes(n as nat),
        res@ == decimal_chars(n as nat),
{
    let mut digits: Vec<u8> = Vec::new();
    push_decimal(&mut digits, n);
    proof {
        assert(digits@ =~= decimal_bytes(n as nat));
        lemma_decimal_bytes(n as nat);
        assert forall|i: int| 0 <= i < digits@.len() implies #[trigger] digits@[i] < 0x80 by {
            assert(is_digit_byte(digits@[i]));
        }
        lemma_ascii_bytes(digits@);
    }
    match str_from_utf8(digits.as_slice()) {
        Some(s) => {
            proof {
                encode_utf8_decode_utf8(s@);
                assert(s@ =~= decimal_chars(n as nat));
            }
            s.to_owned()
        },
        None => String::new(),
    }
}

} // verus!
