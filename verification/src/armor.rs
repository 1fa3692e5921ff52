use vstd::prelude::*;
use crate::text::{is_space, is_space_char, occurs, occurs_at, contains_seq, chars_of};

verus! {

/// The begin marker of an armored contract.
pub open spec fn contract_begin() -> Seq<char> {
    "-----BEGIN RGB CONTRACT-----"@
}

/// The end marker of an armored contract.
pub open spec fn contract_end() -> Seq<char> {
    "-----END RGB CONTRACT-----"@
}

/// The begin marker of an armored consignment.
pub open spec fn consignment_begin() -> Seq<char> {
    "-----BEGIN RGB CONSIGNMENT-----"@
}

/// The end marker of an armored consignment.
pub open spec fn consignment_end() -> Seq<char> {
    "-----END RGB CONSIGNMENT-----"@
}

/// A document is armored when it carries both markers of either pair.
pub open spec fn is_armored(s: Seq<char>) -> bool {
    (occurs(s, contract_begin()) && occurs(s, contract_end())) || (occurs(s, consignment_begin())
        && occurs(s, consignment_end()))
}

/// Check a raw document text for a complete marker pair.
pub fn has_marker_pair(s: &Vec<char>) -> (r: bool)
    ensures
        r == is_armored(s@),
{
    let cb = chars_of("-----BEGIN RGB CONTRACT-----");
    let ce = chars_of("-----END RGB CONTRACT-----");
    let gb = chars_of("-----BEGIN RGB CONSIGNMENT-----");
    let ge = chars_of("-----END RGB CONSIGNMENT-----");
    (contains_seq(s, &cb) && contains_seq(s, &ce)) || (contains_seq(s, &gb) && contains_seq(
        s,
        &ge,
    ))
}

/// The text with every occurrence of the marker removed, scanning left to
/// right.
pub open spec fn strip_marker(s: Seq<char>, m: Seq<char>) -> Seq<char>
    decreases s.len(),
{
    if m.len() == 0 || s.len() == 0 {
        s
    } else if occurs_at(s, m, 0) {
        strip_marker(s.skip(m.len() as int), m)
    } else {
        seq![s[0]] + strip_marker(s.drop_first(), m)
    }
}

/// The text with all whitespace characters removed.
pub open spec fn without_space(s: Seq<char>) -> Seq<char>
    decreases s.len(),
{
    if s.len() == 0 {
        Seq::empty()
    } else if is_space(s[0]) {
        without_space(s.drop_first())
    } else {
        seq![s[0]] + without_space(s.drop_first())
    }
}

/// The body region reduced to one contiguous token string: all four marker
/// strings stripped, then all whitespace removed.
pub open spec fn body_tokens_spec(s: Seq<char>) -> Seq<char> {
    without_space(
        strip_marker(
            strip_marker(
                strip_marker(strip_marker(s, contract_begin()), contract_end()),
                consignment_begin(),
            ),
            consignment_end(),
        ),
    )
}

/// Remove every occurrence of the marker from the text.
fn strip_marker_exec(s: &Vec<char>, m: &Vec<char>) -> (out: Vec<char>)
    requires
        m@.len() > 0,
    ensures
        out@ == strip_marker(s@, m@),
{
    let n = s.len();
    let ml = m.len();
    let mut out: Vec<char> = Vec::new();
    let mut i: usize = 0;
    proof {
        assert(s@.skip(0) =~= s@);
        assert(Seq::<char>::empty() + strip_marker(s@, m@) =~= strip_marker(s@, m@));
    }
    while i < n
        invariant
            n == s@.len(),
            ml == m@.len(),
            0 < ml,
            i <= n,
            strip_marker(s@, m@) == out@ + strip_marker(s@.skip(i as int), m@),
        decreases n - i,
    {
        let ghost t = s@.skip(i as int);
        proof {
            assert(t[0] == s@[i as int]);
            assert(t.drop_first() =~= s@.skip(i + 1));
        }
        if n - i >= ml && crate::text::matches_at(s, m, i) {
            proof {
                assert(t.subrange(0, ml as int) =~= s@.subrange(i as int, i + ml));
                assert(occurs_at(t, m@, 0));
                assert(t.skip(ml as int) =~= s@.skip(i + ml));
            }
            i += ml;
        } else {
            proof {
                if n - i >= ml {
                    assert(s@.subrange(i as int, i + ml) =~= t.subrange(0, ml as int));
                }
                assert(!occurs_at(t, m@, 0));
            }
            let c = s[i];
            let ghost pre = out@;
            out.push(c);
            i += 1;
            proof {
                assert(out@ =~= pre + seq![c]);
                assert((pre + seq![c]) + strip_marker(s@.skip(i as int), m@) =~= pre + (seq![c]
                    + strip_marker(s@.skip(i as int), m@)));
            }
        }
    }
    proof {
        assert(s@.skip(i as int) =~= Seq::<char>::empty());
        assert(out@ + Seq::<char>::empty() =~= out@);
    }
    out
}

/// Remove all whitespace from the text.
fn without_space_exec(s: &Vec<char>) -> (out: Vec<char>)
    ensures
        out@ == without_space(s@),
{
    let n = s.len();
    let mut out: Vec<char> = Vec::new();
    let mut i: usize = 0;
    proof {
        assert(s@.skip(0) =~= s@);
        assert(Seq::<char>::empty() + without_space(s@) =~= without_space(s@));
    }
    while i < n
        invariant
            n == s@.len(),
            i <= n,
            without_space(s@) == out@ + without_space(s@.skip(i as int)),
        decreases n - i,
    {
        let c = s[i];
        proof {
            assert(s@.skip(i as int)[0] == c);
            assert(s@.skip(i as int).drop_first() =~= s@.skip(i + 1));
        }
        if !is_space_char(c) {
            let ghost pre = out@;
            out.push(c);
            proof {
                assert(out@ =~= pre + seq![c]);
                assert((pre + seq![c]) + without_space(s@.skip(i + 1)) =~= pre + (seq![c]
                    + without_space(s@.skip(i + 1))));
            }
        }
        i += 1;
    }
    proof {
        assert(s@.skip(i as int) =~= Seq::<char>::empty());
        assert(out@ + Seq::<char>::empty() =~= out@);
    }
    out
}

/// A text without any whitespace character.
pub open spec fn space_free(t: Seq<char>) -> bool {
    forall|i: int| 0 <= i < t.len() ==> !is_space(t[i])
}

/// Removing whitespace leaves a space-free text.
proof fn lemma_without_space_space_free(s: Seq<char>)
    ensures
        space_free(without_space(s)),
    decreases s.len(),
{
    if s.len() > 0 {
        lemma_without_space_space_free(s.drop_first());
    }
}

/// Removing whitespace from a space-free text changes nothing.
proof fn lemma_without_space_identity(s: Seq<char>)
    requires
        space_free(s),
    ensures
        without_space(s) == s,
    decreases s.len(),
{
    if s.len() > 0 {
        assert(space_free(s.drop_first()));
        lemma_without_space_identity(s.drop_first());
        assert(seq![s[0]] + s.drop_first() =~= s);
    }
}

/// A marker holding a whitespace character cannot occur in a space-free
/// text, so stripping it changes nothing.
proof fn lemma_strip_space_free(s: Seq<char>, m: Seq<char>, k: int)
    requires
        0 <= k < m.len(),
        is_space(m[k]),
        space_free(s),
    ensures
        strip_marker(s, m) == s,
    decreases s.len(),
{
    if s.len() > 0 {
        if occurs_at(s, m, 0) {
            assert(s.subrange(0, m.len() as int)[k] == s[k]);
            assert(false);
        }
        assert(space_free(s.drop_first()));
        lemma_strip_space_free(s.drop_first(), m, k);
        assert(seq![s[0]] + s.drop_first() =~= s);
    }
}

/// Body normalization is idempotent: applied to its own output it is a
/// no-op, since each marker holds a space and the output holds none.
pub proof fn lemma_body_tokens_idempotent(s: Seq<char>)
    ensures
        body_tokens_spec(body_tokens_spec(s)) == body_tokens_spec(s),
{
    reveal_strlit("-----BEGIN RGB CONTRACT-----");
    reveal_strlit("-----END RGB CONTRACT-----");
    reveal_strlit("-----BEGIN RGB CONSIGNMENT-----");
    reveal_strlit("-----END RGB CONSIGNMENT-----");
    let t = body_tokens_spec(s);
    lemma_without_space_space_free(
        strip_marker(
            strip_marker(
                strip_marker(strip_marker(s, contract_begin()), contract_end()),
                consignment_begin(),
            ),
            consignment_end(),
        ),
    );
    assert(is_space(contract_begin()[10]));
    assert(is_space(contract_end()[8]));
    assert(is_space(consignment_begin()[10]));
    assert(is_space(consignment_end()[8]));
    lemma_strip_space_free(t, contract_begin(), 10);
    lemma_strip_space_free(t, contract_end(), 8);
    lemma_strip_space_free(t, consignment_begin(), 10);
    lemma_strip_space_free(t, consignment_end(), 8);
    lemma_without_space_identity(t);
}

/// Normalize a body region into the contiguous token string handed to the
/// decode cascade.
pub fn body_tokens(body: &Vec<char>) -> (out: Vec<char>)
    ensures
        out@ == body_tokens_spec(body@),
{
    let cb = chars_of("-----BEGIN RGB CONTRACT-----");
    let ce = chars_of("-----END RGB CONTRACT-----");
    let gb = chars_of("-----BEGIN RGB CONSIGNMENT-----");
    let ge = chars_of("-----END RGB CONSIGNMENT-----");
    proof {
        reveal_strlit("-----BEGIN RGB CONTRACT-----");
        reveal_strlit("-----END RGB CONTRACT-----");
        reveal_strlit("-----BEGIN RGB CONSIGNMENT-----");
        reveal_strlit("-----END RGB CONSIGNMENT-----");
    }
    let s1 = strip_marker_exec(body, &cb);
    let s2 = strip_marker_exec(&s1, &ce);
    let s3 = strip_marker_exec(&s2, &gb);
    let s4 = strip_marker_exec(&s3, &ge);
    without_space_exec(&s4)
}

} // verus!
