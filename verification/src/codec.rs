use vstd::prelude::*;
use base64::Engine;
use crate::base85::{b85_decode_spec, is_ascii_space, is_ascii_space_char, pow85};
use crate::header::{copy_range, trim_back, trim_front};
use crate::text::{chars_of, matches_at};

verus! {

/// What z85 decoding yields for a given text: bytes exactly when the text
/// is valid Z85, and nothing otherwise.
pub uninterp spec fn z85_decoding(s: Seq<char>) -> Option<Seq<u8>>;

/// What Ascii85 decoding yields for a given text.
pub uninterp spec fn ascii85_decoding(s: Seq<char>) -> Option<Seq<u8>>;

/// What standard Base64 decoding yields for a given text.
pub uninterp spec fn base64_decoding(s: Seq<char>) -> Option<Seq<u8>>;

/// The standard padded Base64 encoding of a byte sequence.
pub uninterp spec fn base64_encoding(b: Seq<u8>) -> Seq<char>;

/// Relies on z85::decode: a pure function of its input text; which texts
/// it accepts, and the bytes it yields for them, are what `z85_decoding`
/// names.
#[verifier::external_body]
fn z85_decode(s: &str) -> (r: Option<Vec<u8>>)
    ensures
        match r {
            Some(v) => z85_decoding(s@) == Some(v@),
            None => z85_decoding(s@) is None,
        },
{
    z85::decode(s).ok()
}

/// Consecutive copies of the pattern stripped from the front of the text.
pub open spec fn strip_all_prefix(s: Seq<char>, p: Seq<char>) -> Seq<char>
    decreases s.len(),
{
    if p.len() > 0 && s.len() >= p.len() && s.take(p.len() as int) == p {
        strip_all_prefix(s.skip(p.len() as int), p)
    } else {
        s
    }
}

/// Consecutive copies of the pattern stripped from the back of the text.
pub open spec fn strip_all_suffix(s: Seq<char>, p: Seq<char>) -> Seq<char>
    decreases s.len(),
{
    if p.len() > 0 && s.len() >= p.len() && s.skip(s.len() - p.len()) == p {
        strip_all_suffix(s.take(s.len() - p.len()), p)
    } else {
        s
    }
}

/// The stream ascii85::decode actually processes: outer whitespace trimmed,
/// then any `<~` framing at the front and `~>` framing at the back.
pub open spec fn a85_effective(s: Seq<char>) -> Seq<char> {
    strip_all_suffix(trim_back(strip_all_prefix(trim_front(s), "<~"@)), "~>"@)
}

/// Whether ascii85::decode's 32-bit group accumulation exceeds that range,
/// carried from the given state: ASCII whitespace is skipped, a character
/// outside the symbol range 33..=117 ends the scan with a plain rejection,
/// and a final partial group is padded with the greatest symbol.  The
/// accumulated sums grow monotonically, so a group overflows exactly when
/// its full (padded) sum does.
pub open spec fn a85_overflows_from(s: Seq<char>, chunk: int, counter: int) -> bool
    decreases s.len(),
{
    if s.len() == 0 {
        counter != 0 && chunk + pow85(5 - counter) - 1 > 0xFFFFFFFF
    } else {
        let u = s[0] as u32;
        if is_ascii_space(s[0]) {
            a85_overflows_from(s.drop_first(), chunk, counter)
        } else if u < 33 || u > 117 {
            false
        } else {
            let chunk2 = chunk + (u - 33) * pow85(4 - counter);
            if chunk2 > 0xFFFFFFFF {
                true
            } else if counter == 4 {
                a85_overflows_from(s.drop_first(), 0, 0)
            } else {
                a85_overflows_from(s.drop_first(), chunk2, counter + 1)
            }
        }
    }
}

/// The texts on which ascii85::decode would overflow its accumulator.
pub open spec fn a85_overflows(s: Seq<char>) -> bool {
    a85_overflows_from(a85_effective(s), 0, 0)
}

/// Drop leading whitespace.
fn trim_front_exec(s: &Vec<char>) -> (r: Vec<char>)
    ensures
        r@ == trim_front(s@),
{
    let n = s.len();
    let mut a: usize = 0;
    while a < n && crate::text::is_space_char(s[a])
        invariant
            a <= n,
            n == s@.len(),
            forall|j: int| 0 <= j < a ==> crate::text::is_space(s@[j]),
        decreases n - a,
    {
        a += 1;
    }
    proof {
        crate::header::lemma_trim_front_skip(s@, a as int);
    }
    let r = copy_range(s, a, n);
    proof {
        assert(s@.subrange(a as int, n as int) =~= s@.skip(a as int));
    }
    r
}

/// Drop trailing whitespace.
fn trim_back_exec(s: &Vec<char>) -> (r: Vec<char>)
    ensures
        r@ == trim_back(s@),
{
    let n = s.len();
    let mut b: usize = n;
    while b > 0 && crate::text::is_space_char(s[b - 1])
        invariant
            b <= n,
            n == s@.len(),
            forall|j: int| b <= j < n ==> crate::text::is_space(s@[j]),
        decreases b,
    {
        b -= 1;
    }
    proof {
        crate::header::lemma_trim_back_take(s@, b as int);
    }
    let r = copy_range(s, 0, b);
    proof {
        assert(s@.subrange(0, b as int) =~= s@.take(b as int));
    }
    r
}

/// Remove every consecutive copy of the pattern from the front.
fn strip_prefix_all_exec(s: &Vec<char>, p: &Vec<char>) -> (r: Vec<char>)
    requires
        p@.len() > 0,
    ensures
        r@ == strip_all_prefix(s@, p@),
{
    let n = s.len();
    let pl = p.len();
    let mut off: usize = 0;
    proof {
        assert(s@.skip(0) =~= s@);
    }
    while n - off >= pl && matches_at(s, p, off)
        invariant
            n == s@.len(),
            pl == p@.len(),
            0 < pl,
            off <= n,
            strip_all_prefix(s@, p@) == strip_all_prefix(s@.skip(off as int), p@),
        decreases n - off,
    {
        proof {
            let t = s@.skip(off as int);
            assert(t.take(pl as int) =~= s@.subrange(off as int, off + pl));
            assert(t.skip(pl as int) =~= s@.skip(off + pl));
        }
        off += pl;
    }
    proof {
        let t = s@.skip(off as int);
        if t.len() >= pl {
            assert(t.take(pl as int) =~= s@.subrange(off as int, off + pl));
        }
        assert(strip_all_prefix(t, p@) == t);
    }
    let r = copy_range(s, off, n);
    proof {
        assert(s@.subrange(off as int, n as int) =~= s@.skip(off as int));
    }
    r
}

/// Remove every consecutive copy of the pattern from the back.
fn strip_suffix_all_exec(s: &Vec<char>, p: &Vec<char>) -> (r: Vec<char>)
    requires
        p@.len() > 0,
    ensures
        r@ == strip_all_suffix(s@, p@),
{
    let n = s.len();
    let pl = p.len();
    let mut end: usize = n;
    proof {
        assert(s@.take(n as int) =~= s@);
    }
    while end >= pl && matches_at(s, p, end - pl)
        invariant
            n == s@.len(),
            pl == p@.len(),
            0 < pl,
            end <= n,
            strip_all_suffix(s@, p@) == strip_all_suffix(s@.take(end as int), p@),
        decreases end,
    {
        proof {
            let t = s@.take(end as int);
            assert(t.skip(end - pl) =~= s@.subrange(end - pl, end as int));
            assert(t.take(end - pl) =~= s@.take(end - pl));
        }
        end -= pl;
    }
    proof {
        let t = s@.take(end as int);
        if end >= pl {
            assert(t.skip(end - pl) =~= s@.subrange(end - pl, end as int));
        }
        assert(strip_all_suffix(t, p@) == t);
    }
    let r = copy_range(s, 0, end);
    proof {
        assert(s@.subrange(0, end as int) =~= s@.take(end as int));
    }
    r
}

/// Scan a digit stream for a group whose accumulation would exceed 32 bits.
fn a85_overflow_scan(t: &Vec<char>) -> (r: bool)
    ensures
        r == a85_overflows_from(t@, 0, 0),
{
    let n = t.len();
    let mut chunk: u64 = 0;
    let mut counter: usize = 0;
    let mut i: usize = 0;
    proof {
        assert(t@.skip(0) =~= t@);
    }
    while i < n
        invariant
            n == t@.len(),
            i <= n,
            counter <= 4,
            chunk <= 0xFFFFFFFF,
            a85_overflows_from(t@, 0, 0) == a85_overflows_from(
                t@.skip(i as int),
                chunk as int,
                counter as int,
            ),
        decreases n - i,
    {
        let c = t[i];
        proof {
            assert(t@.skip(i as int)[0] == c);
            assert(t@.skip(i as int).drop_first() =~= t@.skip(i + 1));
        }
        let u = c as u32;
        if is_ascii_space_char(c) {
            i += 1;
        } else if u < 33 || u > 117 {
            return false;
        } else {
            let w: u64 = if counter == 0 {
                52200625
            } else if counter == 1 {
                614125
            } else if counter == 2 {
                7225
            } else if counter == 3 {
                85
            } else {
                1
            };
            proof {
                assert(w == pow85(4 - counter as int));
            }
            let chunk2: u64 = chunk + ((u - 33) as u64) * w;
            if chunk2 > 0xFFFFFFFF {
                return true;
            }
            if counter == 4 {
                chunk = 0;
                counter = 0;
            } else {
                chunk = chunk2;
                counter = counter + 1;
            }
            i += 1;
        }
    }
    proof {
        assert(t@.skip(i as int) =~= Seq::<char>::empty());
    }
    if counter == 0 {
        return false;
    }
    let padv: u64 = if counter == 1 {
        52200624
    } else if counter == 2 {
        614124
    } else if counter == 3 {
        7224
    } else {
        84
    };
    proof {
        assert(padv == pow85(5 - counter as int) - 1);
    }
    chunk + padv > 0xFFFFFFFF
}

/// Would ascii85::decode overflow its accumulator on this text?
fn ascii85_overflows_exec(s: &str) -> (r: bool)
    ensures
        r == a85_overflows(s@),
{
    proof {
        reveal_strlit("<~");
        reveal_strlit("~>");
    }
    let cs = chars_of(s);
    let t1 = trim_front_exec(&cs);
    let lt = chars_of("<~");
    let t2 = strip_prefix_all_exec(&t1, &lt);
    let t3 = trim_back_exec(&t2);
    let gt = chars_of("~>");
    let t4 = strip_suffix_all_exec(&t3, &gt);
    a85_overflow_scan(&t4)
}

/// Relies on ascii85::decode: a pure function of its input text, named by
/// `ascii85_decoding`.  Its group accumulation is unchecked 32-bit
/// arithmetic: on a text where a group exceeds that range the call panics
/// under overflow checks and wraps silently without them, so such texts
/// are excluded by `requires`.  The cascade tests `a85_overflows` first
/// and treats such a text as an Ascii85 rejection.
#[verifier::external_body]
fn ascii85_decode(s: &str) -> (r: Option<Vec<u8>>)
    requires
        !a85_overflows(s@),
    ensures
        match r {
            Some(v) => ascii85_decoding(s@) == Some(v@),
            None => ascii85_decoding(s@) is None,
        },
{
    ascii85::decode(s).ok()
}

/// Relies on base64::engine::general_purpose::STANDARD, Engine::decode: a
/// pure function of its input text; which texts it accepts, and the bytes
/// it yields, are what `base64_decoding` names.
#[verifier::external_body]
fn base64_decode(s: &str) -> (r: Option<Vec<u8>>)
    ensures
        match r {
            Some(v) => base64_decoding(s@) == Some(v@),
            None => base64_decoding(s@) is None,
        },
{
    base64::engine::general_purpose::STANDARD.decode(s).ok()
}

/// Relies on base64::engine::general_purpose::STANDARD, Engine::encode: the
/// padded standard Base64 text of the bytes, a pure function of them.
#[verifier::external_body]
pub(crate) fn base64_encode(b: &Vec<u8>) -> (r: String)
    ensures
        r@ == base64_encoding(b@),
{
    base64::engine::general_purpose::STANDARD.encode(b)
}

/// Which decoding the cascade yields: the first codec in the fixed order
/// (Z85, then the RFC 1924 alphabet, then Ascii85, then Base64) that accepts
/// the whole text.  A text whose Ascii85 accumulation would overflow 32
/// bits counts as an Ascii85 rejection: it violates the encoding's range,
/// and the Ascii85 call is never made on it.
pub open spec fn cascade_spec(s: Seq<char>) -> Option<Seq<u8>> {
    if z85_decoding(s) is Some {
        z85_decoding(s)
    } else if b85_decode_spec(s) is Some {
        b85_decode_spec(s)
    } else if !a85_overflows(s) && ascii85_decoding(s) is Some {
        ascii85_decoding(s)
    } else {
        base64_decoding(s)
    }
}

/// Try the codecs in the fixed priority order and return the first success;
/// nothing when all four reject the text.
pub fn decode_cascade(s: &str) -> (r: Option<Vec<u8>>)
    ensures
        match r {
            Some(v) => cascade_spec(s@) == Some(v@),
            None => cascade_spec(s@) is None,
        },
{
    if let Some(v) = z85_decode(s) {
        return Some(v);
    }
    if let Some(v) = crate::base85::decode_base85_rfc1924(s) {
        return Some(v);
    }
    if !ascii85_overflows_exec(s) {
        if let Some(v) = ascii85_decode(s) {
            return Some(v);
        }
    }
    if let Some(v) = base64_decode(s) {
        return Some(v);
    }
    None
}

/// The cascade is deterministic: any two results drawn for the same text —
/// each sound for that text the way `decode_cascade` promises — are equal,
/// so the same codec wins and the same bytes come out on every run.
pub proof fn lemma_cascade_deterministic(s: Seq<char>, r1: Option<Seq<u8>>, r2: Option<Seq<u8>>)
    requires
        match r1 {
            Some(v) => cascade_spec(s) == Some(v),
            None => cascade_spec(s) is None,
        },
        match r2 {
            Some(v) => cascade_spec(s) == Some(v),
            None => cascade_spec(s) is None,
        },
    ensures
        r1 == r2,
{
}

} // verus!
