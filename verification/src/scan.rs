use vstd::prelude::*;

verus! {

/// The binary format of an embedded image found by signature.
#[derive(Clone, Copy, PartialEq, Eq, Structural, Debug)]
pub enum ImageFormat {
    Jpeg,
    Png,
}

/// The three-byte JPEG start-of-image signature begins at `i`.
pub open spec fn jpeg_at(b: Seq<u8>, i: int) -> bool {
    b[i] == 0xff && b[i + 1] == 0xd8 && b[i + 2] == 0xff
}

/// The four-byte PNG signature begins at `i`.
pub open spec fn png_at(b: Seq<u8>, i: int) -> bool {
    b[i] == 0x89 && b[i + 1] == 0x50 && b[i + 2] == 0x4e && b[i + 3] == 0x47
}

/// A candidate position carries either signature.  Positions run to four
/// short of the end, so a buffer shorter than five bytes has none.
pub open spec fn sig_at(b: Seq<u8>, i: int) -> bool {
    0 <= i && i + 4 < b.len() && (jpeg_at(b, i) || png_at(b, i))
}

/// Scan for the earliest signature, byte position by byte position, both
/// signatures checked at each offset before advancing; the reported offset
/// is the least that carries any signature.
pub fn find_signature(b: &Vec<u8>) -> (r: Option<(ImageFormat, usize)>)
    ensures
        match r {
            Some(fi) => {
                &&& sig_at(b@, fi.1 as int)
                &&& forall|j: int| 0 <= j < fi.1 ==> !sig_at(b@, j)
                &&& (fi.0 is Jpeg <==> jpeg_at(b@, fi.1 as int))
                &&& (fi.0 is Png <==> png_at(b@, fi.1 as int))
            },
            None => forall|j: int| !sig_at(b@, j),
        },
{
    let n = b.len();
    if n < 5 {
        return None;
    }
    let mut i: usize = 0;
    while i < n - 4
        invariant
            n == b@.len(),
            5 <= n,
            i <= n - 4,
            forall|j: int| 0 <= j < i ==> !sig_at(b@, j),
        decreases n - i,
    {
        if b[i] == 0xff && b[i + 1] == 0xd8 && b[i + 2] == 0xff {
            return Some((ImageFormat::Jpeg, i));
        }
        if b[i] == 0x89 && b[i + 1] == 0x50 && b[i + 2] == 0x4e && b[i + 3] == 0x47 {
            return Some((ImageFormat::Png, i));
        }
        i += 1;
    }
    None
}

/// The printable-ASCII runs of the bytes, given the run gathered so far:
/// a printable byte extends the run; any other byte, or the end, emits the
/// run if it has reached four characters and discards it otherwise.
pub open spec fn runs_from(b: Seq<u8>, cur: Seq<char>) -> Seq<Seq<char>>
    decreases b.len(),
{
    if b.len() == 0 {
        if cur.len() >= 4 {
            seq![cur]
        } else {
            Seq::empty()
        }
    } else if 32 <= b[0] <= 126 {
        runs_from(b.drop_first(), cur.push(b[0] as char))
    } else {
        if cur.len() >= 4 {
            seq![cur] + runs_from(b.drop_first(), Seq::empty())
        } else {
            runs_from(b.drop_first(), Seq::empty())
        }
    }
}

/// All printable-ASCII runs of at least four characters, in order.
pub open spec fn extract_strings_spec(b: Seq<u8>) -> Seq<Seq<char>> {
    runs_from(b, Seq::empty())
}

/// Extract every run of at least four consecutive printable-ASCII bytes as
/// a string, in the order the runs appear.
pub fn extract_strings(data: &[u8]) -> (r: Vec<String>)
    ensures
        r.deep_view() == extract_strings_spec(data@),
{
    let mut out: Vec<String> = Vec::new();
    let mut cur: Vec<char> = Vec::new();
    let mut i: usize = 0;
    proof {
        assert(data@.skip(0) =~= data@);
        assert(Seq::<Seq<char>>::empty() + extract_strings_spec(data@) =~= extract_strings_spec(
            data@,
        ));
    }
    while i < data.len()
        invariant
            i <= data@.len(),
            extract_strings_spec(data@) == out.deep_view() + runs_from(
                data@.skip(i as int),
                cur@,
            ),
        decreases data@.len() - i,
    {
        let byte = data[i];
        proof {
            assert(data@.skip(i as int)[0] == byte);
            assert(data@.skip(i as int).drop_first() =~= data@.skip(i + 1));
        }
        if 32 <= byte && byte <= 126 {
            cur.push(byte as char);
        } else {
            if cur.len() >= 4 {
                let ghost pre = out.deep_view();
                let s = crate::text::string_of(&cur);
                out.push(s);
                proof {
                    assert(out.deep_view() =~= pre.push(cur@));
                    assert((pre + seq![cur@]) + runs_from(data@.skip(i + 1), Seq::empty()) =~= pre
                        + (seq![cur@] + runs_from(data@.skip(i + 1), Seq::empty())));
                    assert(pre.push(cur@) =~= pre + seq![cur@]);
                }
            }
            cur = Vec::new();
        }
        i += 1;
    }
    proof {
        assert(data@.skip(i as int) =~= Seq::<u8>::empty());
    }
    if cur.len() >= 4 {
        let ghost pre = out.deep_view();
        let s = crate::text::string_of(&cur);
        out.push(s);
        proof {
            assert(out.deep_view() =~= pre.push(cur@));
            assert(pre.push(cur@) =~= pre + seq![cur@]);
        }
    } else {
        proof {
            assert(out.deep_view() + Seq::<Seq<char>>::empty() =~= out.deep_view());
        }
    }
    out
}

/// Copy the bytes from `i` to the end.
pub fn bytes_from(data: &Vec<u8>, i: usize) -> (r: Vec<u8>)
    requires
        i <= data@.len(),
    ensures
        r@ == data@.skip(i as int),
{
    let mut out: Vec<u8> = Vec::new();
    let mut j: usize = i;
    while j < data.len()
        invariant
            i <= j <= data@.len(),
            out@ == data@.subrange(i as int, j as int),
        decreases data@.len() - j,
    {
        out.push(data[j]);
        j += 1;
        proof {
            assert(out@ =~= data@.subrange(i as int, j as int));
        }
    }
    proof {
        assert(out@ =~= data@.skip(i as int));
    }
    out
}

} // verus!
