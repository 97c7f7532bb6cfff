//! Text primitives: Unicode whitespace trimming, UTF-8 byte ranges of string
//! slices, and the few std string operations that the library builds on.
use vstd::prelude::*;
use vstd::string::StringSliceAdditionalSpecFns;
use vstd::utf8::*;

verus! {

broadcast use vstd::utf8::group_utf8_lib;

/// Unicode `White_Space` property, the definition that `str::trim` uses.
pub open spec fn is_white_space(c: char) -> bool {
    ||| c == '\t'
    ||| c == '\n'
    ||| c == '\u{0B}'
    ||| c == '\u{0C}'
    ||| c == '\r'
    ||| c == ' '
    ||| c == '\u{85}'
    ||| c == '\u{A0}'
    ||| c == '\u{1680}'
    ||| ('\u{2000}' <= c && c <= '\u{200A}')
    ||| c == '\u{2028}'
    ||| c == '\u{2029}'
    ||| c == '\u{202F}'
    ||| c == '\u{205F}'
    ||| c == '\u{3000}'
}

/// `s` without its leading whitespace.
pub open spec fn trim_start_ws(s: Seq<char>) -> Seq<char>
    decreases s.len(),
{
    if s.len() > 0 && is_white_space(s[0]) {
        trim_start_ws(s.drop_first())
    } else {
        s
    }
}

/// `s` without its trailing whitespace.
pub open spec fn trim_end_ws(s: Seq<char>) -> Seq<char>
    decreases s.len(),
{
    if s.len() > 0 && is_white_space(s.last()) {
        trim_end_ws(s.drop_last())
    } else {
        s
    }
}

/// `s` without leading and trailing whitespace.
pub open spec fn trim_ws(s: Seq<char>) -> Seq<char> {
    trim_end_ws(trim_start_ws(s))
}

/// The view of an optional string.
pub open spec fn opt_string_view(s: Option<String>) -> Option<Seq<char>> {
    match s {
        Some(v) => Some(v@),
        None => None,
    }
}

/// The characters that `String::from_utf8_lossy` yields for `bytes`: each
/// maximal invalid sequence becomes U+FFFD.
pub uninterp spec fn utf8_lossy(bytes: Seq<u8>) -> Seq<char>;

/// `str::trim`: its documentation defines whitespace by the Unicode
/// `White_Space` property, which `is_white_space` lists.
#[verifier::external_body]
pub(crate) fn str_trim(s: &str) -> (res: &str)
    ensures
        res@ == trim_ws(s@),
{
    s.trim()
}

/// `String::push_str`: appends the characters of `t` to `s`.
#[verifier::external_body]
pub(crate) fn push_str(s: &mut String, t: &str)
    ensures
        final(s)@ == old(s)@ + t@,
{
    s.push_str(t)
}

/// True exactly when `prefix` is a prefix of `s`, decided on their UTF-8
/// bytes.
pub(crate) fn str_starts_with(s: &str, prefix: &str) -> (res: bool)
    ensures
        res == prefix@.is_prefix_of(s@),
{
    let x = s.as_bytes();
    let y = prefix.as_bytes();
    proof {
        lemma_str_bytes(s);
        lemma_str_bytes(prefix);
        if prefix@.is_prefix_of(s@) {
            let r = s@.subrange(prefix@.len() as int, s@.len() as int);
            assert(s@ =~= prefix@ + r);
            lemma_encode_utf8_concat(prefix@, r);
            assert(encode_utf8(s@) == x@);
            assert(x@ == y@ + encode_utf8(r));
            assert(forall|j: int| 0 <= j < y@.len() ==> x@[j] == (y@ + encode_utf8(r))[j]);
        }
    }
    if y.len() > x.len() {
        return false;
    }
    let mut i: usize = 0;
    while i < y.len()
        invariant
            i <= y@.len() <= x@.len(),
            x@ == s.spec_bytes(),
            y@ == prefix.spec_bytes(),
            forall|j: int| 0 <= j < i ==> x@[j] == y@[j],
            prefix@.is_prefix_of(s@) ==> forall|j: int| 0 <= j < y@.len() ==> x@[j] == y@[j],
        decreases y@.len() - i,
    {
        if x[i] != y[i] {
            return false;
        }
        i = i + 1;
    }
    proof {
        let n = y@.len() as int;
        let r = x@.subrange(n, x@.len() as int);
        assert(x@ =~= y@ + r);
        assert(x@.subrange(0, n) =~= y@);
        lemma_boundary_after_valid(y@, r);
        decode_utf8_split(x@, n);
    }
    true
}

/// After a valid UTF-8 prefix of valid UTF-8 bytes stands a character
/// boundary.
proof fn lemma_boundary_after_valid(a: Seq<u8>, r: Seq<u8>)
    requires
        valid_utf8(a),
        valid_utf8(a + r),
    ensures
        is_char_boundary(a + r, a.len() as int),
    decreases a.len(),
{
    if a.len() > 0 {
        let l = length_of_first_scalar(a);
        assert((a + r).subrange(0, l) =~= a.subrange(0, l));
        assert(valid_first_scalar(a + r));
        assert(length_of_first_scalar(a + r) == l);
        let pa = pop_first_scalar(a);
        assert(pop_first_scalar(a + r) =~= pa + r);
        lemma_boundary_after_valid(pa, r);
    }
}

/// Encoding a concatenation concatenates the encodings.
pub proof fn lemma_encode_utf8_concat(a: Seq<char>, b: Seq<char>)
    ensures
        encode_utf8(a + b) == encode_utf8(a) + encode_utf8(b),
    decreases a.len(),
{
    if a.len() == 0 {
        assert(a + b =~= b);
        assert(encode_utf8(a) =~= Seq::<u8>::empty());
        assert(encode_utf8(a) + encode_utf8(b) =~= encode_utf8(b));
    } else {
        assert((a + b).drop_first() =~= a.drop_first() + b);
        assert((a + b)[0] == a[0]);
        lemma_encode_utf8_concat(a.drop_first(), b);
        assert(encode_utf8(a + b) =~= encode_utf8(a) + encode_utf8(b));
    }
}


/// `String::from_utf8_lossy`: the result is named by `utf8_lossy`; its
/// documentation states that valid UTF-8 comes back unchanged.
#[verifier::external_body]
pub(crate) fn from_utf8_lossy(bytes: &[u8]) -> (res: String)
    ensures
        res@ == utf8_lossy(bytes@),
        valid_utf8(bytes@) ==> res@ == decode_utf8(bytes@),
{
    String::from_utf8_lossy(bytes).into_owned()
}

/// A string with the characters of `a` followed by those of `b`.
pub fn concat(a: &str, b: &str) -> (res: String)
    ensures
        res@ == a@ + b@,
{
    let mut s = a.to_owned();
    push_str(&mut s, b);
    s
}

/// True when the two slices hold the same characters.
pub fn str_eq(a: &str, b: &str) -> (res: bool)
    ensures
        res == (a@ == b@),
{
    let x = a.as_bytes();
    let y = b.as_bytes();
    proof {
        lemma_str_bytes(a);
        lemma_str_bytes(b);
    }
    if x.len() != y.len() {
        return false;
    }
    let mut i: usize = 0;
    while i < x.len()
        invariant
            i <= x@.len(),
            x@.len() == y@.len(),
            x@ == a.spec_bytes(),
            y@ == b.spec_bytes(),
            forall|j: int| 0 <= j < i ==> x@[j] == y@[j],
        decreases x@.len() - i,
    {
        if x[i] != y[i] {
            return false;
        }
        i = i + 1;
    }
    proof {
        assert(x@ =~= y@);
    }
    true
}

/// The bytes of any string slice are valid UTF-8 and decode to its characters.
pub proof fn lemma_str_bytes(s: &str)
    ensures
        valid_utf8(s.spec_bytes()),
        decode_utf8(s.spec_bytes()) == s@,
        is_char_boundary(s.spec_bytes(), 0),
        is_char_boundary(s.spec_bytes(), s.spec_bytes().len() as int),
{
    is_char_boundary_start_end_of_seq(s.spec_bytes());
}

/// The index right after an ASCII byte at a character boundary is again a
/// character boundary.
pub proof fn lemma_boundary_after_ascii(b: Seq<u8>, k: int)
    requires
        valid_utf8(b),
        0 <= k < b.len(),
        is_char_boundary(b, k),
        b[k] < 0x80,
    ensures
        is_char_boundary(b, k + 1),
    decreases b.len(),
{
    reveal_with_fuel(is_char_boundary, 2);
    let l = length_of_first_scalar(b);
    let p = pop_first_scalar(b);
    if k == 0 {
        assert(l == 1);
        assert(is_char_boundary(p, 0));
    } else {
        assert(is_char_boundary(p, k - l));
        assert(p[k - l] == b[k]);
        lemma_boundary_after_ascii(p, k - l);
    }
}

/// A run of ASCII bytes that starts at a character boundary ends at one.
pub proof fn lemma_boundary_after_ascii_run(b: Seq<u8>, k: int, n: int)
    requires
        valid_utf8(b),
        0 <= k,
        0 <= n,
        k + n <= b.len(),
        is_char_boundary(b, k),
        forall|i: int| k <= i < k + n ==> b[i] < 0x80,
    ensures
        is_char_boundary(b, k + n),
    decreases n,
{
    if n > 0 {
        lemma_boundary_after_ascii_run(b, k, n - 1);
        lemma_boundary_after_ascii(b, k + n - 1);
    }
}

/// An ASCII byte always starts a character.
pub proof fn lemma_ascii_is_boundary(b: Seq<u8>, k: int)
    requires
        valid_utf8(b),
        0 <= k < b.len(),
        b[k] < 0x80,
    ensures
        is_char_boundary(b, k),
{
    is_char_boundary_iff_not_is_continuation_byte(b, k);
}

/// Boundaries of `b` below `e` stay boundaries of the prefix `b[0..e]`.
pub proof fn lemma_boundary_in_prefix(b: Seq<u8>, a: int, e: int)
    requires
        valid_utf8(b),
        0 <= a <= e <= b.len(),
        is_char_boundary(b, a),
        is_char_boundary(b, e),
    ensures
        valid_utf8(b.subrange(0, e)),
        is_char_boundary(b.subrange(0, e), a),
{
    valid_utf8_split(b, e);
    let p = b.subrange(0, e);
    if a == e {
        is_char_boundary_start_end_of_seq(p);
    } else {
        is_char_boundary_iff_not_is_continuation_byte(b, a);
        is_char_boundary_iff_not_is_continuation_byte(p, a);
    }
}

/// The part of `s` between the byte offsets `from` and `to`.
pub fn substr(s: &str, from: usize, to: usize) -> (res: &str)
    requires
        from <= to <= s.spec_bytes().len(),
        is_char_boundary(s.spec_bytes(), from as int),
        is_char_boundary(s.spec_bytes(), to as int),
    ensures
        res.spec_bytes() == s.spec_bytes().subrange(from as int, to as int),
        res@ == decode_utf8(s.spec_bytes().subrange(from as int, to as int)),
{
    proof {
        lemma_str_bytes(s);
        lemma_boundary_in_prefix(s.spec_bytes(), from as int, to as int);
    }
    let (head, _) = s.split_at(to);
    let (_, mid) = head.split_at(from);
    proof {
        assert(mid.spec_bytes() =~= s.spec_bytes().subrange(from as int, to as int));
        lemma_str_bytes(mid);
    }
    mid
}

} // verus!
