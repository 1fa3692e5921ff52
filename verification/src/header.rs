use vstd::prelude::*;
use vstd::string::StrSliceExecFns;
use vstd::string::StringExecFns;
use crate::text::{is_space, is_space_char};

verus! {

/// First pass of normalization: each carriage-return/linefeed pair becomes
/// one linefeed.
pub open spec fn norm_crlf(s: Seq<char>) -> Seq<char>
    decreases s.len(),
{
    if s.len() == 0 {
        Seq::empty()
    } else if s.len() >= 2 && s[0] == '\r' && s[1] == '\n' {
        seq!['\n'] + norm_crlf(s.skip(2))
    } else {
        seq![s[0]] + norm_crlf(s.skip(1))
    }
}

/// Second pass: every remaining carriage return becomes a linefeed.
pub open spec fn norm_cr(s: Seq<char>) -> Seq<char> {
    Seq::new(s.len(), |i: int| if s[i] == '\r' {
        '\n'
    } else {
        s[i]
    })
}

/// Third pass: each literal backslash-n pair becomes one linefeed.
pub open spec fn norm_esc(s: Seq<char>) -> Seq<char>
    decreases s.len(),
{
    if s.len() == 0 {
        Seq::empty()
    } else if s.len() >= 2 && s[0] == '\\' && s[1] == 'n' {
        seq!['\n'] + norm_esc(s.skip(2))
    } else {
        seq![s[0]] + norm_esc(s.skip(1))
    }
}

/// Line endings normalized as the analyzer does before splitting: real and
/// escaped line endings all become single linefeeds.
pub open spec fn normalize_spec(s: Seq<char>) -> Seq<char> {
    norm_esc(norm_cr(norm_crlf(s)))
}

/// Replace each two-character pair `(a, b)` by `r`, scanning left to right.
fn replace_pair(s: &Vec<char>, a: char, b: char, r: char) -> (out: Vec<char>)
    ensures
        a == '\r' && b == '\n' && r == '\n' ==> out@ == norm_crlf(s@),
        a == '\\' && b == 'n' && r == '\n' ==> out@ == norm_esc(s@),
{
    let n = s.len();
    let mut out: Vec<char> = Vec::new();
    let mut i: usize = 0;
    proof {
        assert(s@.skip(0) =~= s@);
        assert(Seq::<char>::empty() + norm_crlf(s@) =~= norm_crlf(s@));
        assert(Seq::<char>::empty() + norm_esc(s@) =~= norm_esc(s@));
    }
    while i < n
        invariant
            n == s@.len(),
            i <= n,
            a == '\r' && b == '\n' && r == '\n' ==> norm_crlf(s@) == out@ + norm_crlf(
                s@.skip(i as int),
            ),
            a == '\\' && b == 'n' && r == '\n' ==> norm_esc(s@) == out@ + norm_esc(
                s@.skip(i as int),
            ),
        decreases n - i,
    {
        proof {
            assert(s@.skip(i as int)[0] == s@[i as int]);
            if i + 1 < n {
                assert(s@.skip(i as int)[1] == s@[i + 1]);
            }
            assert(s@.skip(i as int).skip(1) =~= s@.skip(i + 1));
            if i + 2 <= n {
                assert(s@.skip(i as int).skip(2) =~= s@.skip(i + 2));
            }
        }
        if i + 1 < n && s[i] == a && s[i + 1] == b {
            let ghost pre = out@;
            out.push(r);
            i += 2;
            proof {
                assert(out@ =~= pre + seq![r]);
                assert((pre + seq![r]) + norm_crlf(s@.skip(i as int)) =~= pre + (seq![r]
                    + norm_crlf(s@.skip(i as int))));
                assert((pre + seq![r]) + norm_esc(s@.skip(i as int)) =~= pre + (seq![r]
                    + norm_esc(s@.skip(i as int))));
            }
        } else {
            let c = s[i];
            let ghost pre = out@;
            out.push(c);
            i += 1;
            proof {
                assert(out@ =~= pre + seq![c]);
                assert((pre + seq![c]) + norm_crlf(s@.skip(i as int)) =~= pre + (seq![c]
                    + norm_crlf(s@.skip(i as int))));
                assert((pre + seq![c]) + norm_esc(s@.skip(i as int)) =~= pre + (seq![c]
                    + norm_esc(s@.skip(i as int))));
            }
        }
    }
    proof {
        assert(s@.skip(i as int) =~= Seq::<char>::empty());
        assert(out@ + Seq::<char>::empty() =~= out@);
    }
    out
}

/// Map every remaining carriage return to a linefeed.
fn map_cr(s: &Vec<char>) -> (out: Vec<char>)
    ensures
        out@ == norm_cr(s@),
{
    let n = s.len();
    let mut out: Vec<char> = Vec::new();
    let mut i: usize = 0;
    while i < n
        invariant
            n == s@.len(),
            i <= n,
            out@.len() == i,
            forall|j: int| 0 <= j < i ==> out@[j] == (if s@[j] == '\r' {
                '\n'
            } else {
                s@[j]
            }),
        decreases n - i,
    {
        let c = s[i];
        if c == '\r' {
            out.push('\n');
        } else {
            out.push(c);
        }
        i += 1;
    }
    proof {
        assert(out@ =~= norm_cr(s@));
    }
    out
}

/// Normalize all line endings of a text.
pub fn normalize(s: &Vec<char>) -> (out: Vec<char>)
    ensures
        out@ == normalize_spec(s@),
{
    let p1 = replace_pair(s, '\r', '\n', '\n');
    let p2 = map_cr(&p1);
    replace_pair(&p2, '\\', 'n', '\n')
}

/// Where the first blank line (two adjacent linefeeds) begins, if any.
pub open spec fn first_blank(s: Seq<char>) -> Option<int>
    decreases s.len(),
{
    if s.len() < 2 {
        None
    } else if s[0] == '\n' && s[1] == '\n' {
        Some(0)
    } else {
        match first_blank(s.drop_first()) {
            Some(j) => Some(j + 1),
            None => None,
        }
    }
}

/// The text before the first blank line: the header region.
pub open spec fn header_region(s: Seq<char>) -> Seq<char> {
    match first_blank(s) {
        Some(j) => s.take(j),
        None => s,
    }
}

/// The text after the first blank line: the body region, empty when the
/// text has no blank line.
pub open spec fn body_region(s: Seq<char>) -> Seq<char> {
    match first_blank(s) {
        Some(j) => s.skip(j + 2),
        None => Seq::empty(),
    }
}

/// Copy the characters from `a` to `b`.
pub fn copy_range(s: &Vec<char>, a: usize, b: usize) -> (r: Vec<char>)
    requires
        a <= b <= s@.len(),
    ensures
        r@ == s@.subrange(a as int, b as int),
{
    let mut out: Vec<char> = Vec::new();
    let mut j: usize = a;
    while j < b
        invariant
            a <= j <= b <= s@.len(),
            out@ == s@.subrange(a as int, j as int),
        decreases b - j,
    {
        out.push(s[j]);
        j += 1;
        proof {
            assert(out@ =~= s@.subrange(a as int, j as int));
        }
    }
    proof {
        assert(out@ =~= s@.subrange(a as int, b as int));
    }
    out
}

/// Split a normalized text into its header and body regions at the first
/// blank line.
pub fn split_regions(s: &Vec<char>) -> (r: (Vec<char>, Vec<char>))
    ensures
        r.0@ == header_region(s@),
        r.1@ == body_region(s@),
{
    let n = s.len();
    let mut i: usize = 0;
    proof {
        assert(s@.skip(0) =~= s@);
    }
    while n - i >= 2
        invariant
            n == s@.len(),
            i <= n,
            first_blank(s@) == (match first_blank(s@.skip(i as int)) {
                Some(j) => Some(i + j),
                None => None::<int>,
            }),
        decreases n - i,
    {
        proof {
            assert(s@.skip(i as int)[0] == s@[i as int]);
            assert(s@.skip(i as int)[1] == s@[i + 1]);
            assert(s@.skip(i as int).drop_first() =~= s@.skip(i + 1));
        }
        if s[i] == '\n' && s[i + 1] == '\n' {
            let head = copy_range(s, 0, i);
            let body = copy_range(s, i + 2, n);
            proof {
                assert(first_blank(s@.skip(i as int)) == Some(0int));
                assert(s@.subrange(0, i as int) =~= s@.take(i as int));
                assert(s@.subrange(i + 2, n as int) =~= s@.skip(i + 2));
            }
            return (head, body);
        }
        i += 1;
    }
    proof {
        assert(s@.skip(i as int).len() < 2);
        assert(first_blank(s@) is None);
    }
    let head = copy_range(s, 0, n);
    proof {
        assert(s@.subrange(0, n as int) =~= s@);
    }
    (head, Vec::new())
}

/// Where a character first occurs, if it does.
pub open spec fn first_char_at(s: Seq<char>, c: char) -> Option<int>
    decreases s.len(),
{
    if s.len() == 0 {
        None
    } else if s[0] == c {
        Some(0)
    } else {
        match first_char_at(s.drop_first(), c) {
            Some(j) => Some(j + 1),
            None => None,
        }
    }
}

/// A forward scan that stops at the first occurrence, or at the end, finds
/// what `first_char_at` names.
proof fn lemma_first_char_at(s: Seq<char>, c: char, j: int)
    requires
        0 <= j <= s.len(),
        forall|k: int| 0 <= k < j ==> s[k] != c,
        j < s.len() ==> s[j] == c,
    ensures
        first_char_at(s, c) == (if j < s.len() {
            Some(j)
        } else {
            None::<int>
        }),
    decreases j,
{
    if s.len() == 0 {
    } else if j == 0 {
    } else {
        lemma_first_char_at(s.drop_first(), c, j - 1);
    }
}

/// The text split at every linefeed, in order; a trailing linefeed yields a
/// final empty line.
pub open spec fn lines_of(s: Seq<char>) -> Seq<Seq<char>>
    decreases s.len(),
{
    match first_char_at(s, '\n') {
        Some(j) => if 0 <= j < s.len() {
            seq![s.take(j)] + lines_of(s.skip(j + 1))
        } else {
            seq![s]
        },
        None => seq![s],
    }
}

/// Split a text into its lines.
pub fn split_lines(s: &Vec<char>) -> (r: Vec<Vec<char>>)
    ensures
        r.deep_view() == lines_of(s@),
{
    let n = s.len();
    let mut out: Vec<Vec<char>> = Vec::new();
    let mut p: usize = 0;
    proof {
        assert(s@.skip(0) =~= s@);
        assert(Seq::<Seq<char>>::empty() + lines_of(s@) =~= lines_of(s@));
    }
    loop
        invariant
            p <= n,
            n == s@.len(),
            lines_of(s@) == out.deep_view() + lines_of(s@.skip(p as int)),
        decreases n - p,
    {
        let mut j: usize = p;
        while j < n && s[j] != '\n'
            invariant
                p <= j <= n,
                n == s@.len(),
                forall|k: int| p <= k < j ==> s@[k] != '\n',
            decreases n - j,
        {
            j += 1;
        }
        proof {
            let t = s@.skip(p as int);
            assert(forall|k: int| 0 <= k < j - p ==> t[k] != '\n');
            if j < n {
                assert(t[j - p] == s@[j as int]);
            }
            lemma_first_char_at(t, '\n', j - p);
        }
        if j < n {
            let line = copy_range(s, p, j);
            let ghost pre = out.deep_view();
            let ghost t = s@.skip(p as int);
            out.push(line);
            proof {
                assert(t.take(j - p) =~= s@.subrange(p as int, j as int));
                assert(t.skip(j - p + 1) =~= s@.skip(j + 1));
                assert(out.deep_view() =~~= pre + seq![s@.subrange(p as int, j as int)]);
                assert((pre + seq![t.take(j - p)]) + lines_of(t.skip(j - p + 1)) =~= pre + (seq![
                    t.take(j - p),
                ] + lines_of(t.skip(j - p + 1))));
            }
            p = j + 1;
        } else {
            let line = copy_range(s, p, n);
            let ghost pre = out.deep_view();
            let ghost t = s@.skip(p as int);
            out.push(line);
            proof {
                assert(lines_of(t) == seq![t]);
                assert(t =~= s@.subrange(p as int, n as int));
                assert(out.deep_view() =~~= pre + seq![t]);
            }
            return out;
        }
    }
}

/// The text with leading whitespace dropped.
pub open spec fn trim_front(s: Seq<char>) -> Seq<char>
    decreases s.len(),
{
    if s.len() > 0 && is_space(s[0]) {
        trim_front(s.drop_first())
    } else {
        s
    }
}

/// The text with trailing whitespace dropped.
pub open spec fn trim_back(s: Seq<char>) -> Seq<char>
    decreases s.len(),
{
    if s.len() > 0 && is_space(s.last()) {
        trim_back(s.drop_last())
    } else {
        s
    }
}

/// The text with whitespace dropped at both ends.
pub open spec fn trim_spec(s: Seq<char>) -> Seq<char> {
    trim_back(trim_front(s))
}

pub(crate) proof fn lemma_trim_front_skip(s: Seq<char>, a: int)
    requires
        0 <= a <= s.len(),
        forall|j: int| 0 <= j < a ==> is_space(s[j]),
        a < s.len() ==> !is_space(s[a]),
    ensures
        trim_front(s) == s.skip(a),
    decreases a,
{
    if a == 0 {
        assert(s.skip(0) =~= s);
    } else {
        lemma_trim_front_skip(s.drop_first(), a - 1);
        assert(s.drop_first().skip(a - 1) =~= s.skip(a));
    }
}

pub(crate) proof fn lemma_trim_back_take(s: Seq<char>, b: int)
    requires
        0 <= b <= s.len(),
        forall|j: int| b <= j < s.len() ==> is_space(s[j]),
        b > 0 ==> !is_space(s[b - 1]),
    ensures
        trim_back(s) == s.take(b),
    decreases s.len() - b,
{
    if b == s.len() {
        assert(s.take(b) =~= s);
    } else {
        lemma_trim_back_take(s.drop_last(), b);
        assert(s.drop_last().take(b) =~= s.take(b));
    }
}

/// Drop whitespace from both ends of a line or value.
pub fn trim_chars(s: &Vec<char>) -> (r: Vec<char>)
    ensures
        r@ == trim_spec(s@),
{
    let n = s.len();
    let mut a: usize = 0;
    while a < n && is_space_char(s[a])
        invariant
            a <= n,
            n == s@.len(),
            forall|j: int| 0 <= j < a ==> is_space(s@[j]),
        decreases n - a,
    {
        a += 1;
    }
    proof {
        lemma_trim_front_skip(s@, a as int);
    }
    let mut b: usize = n;
    while b > a && is_space_char(s[b - 1])
        invariant
            a <= b <= n,
            n == s@.len(),
            forall|j: int| b <= j < n ==> is_space(s@[j]),
        decreases b,
    {
        b -= 1;
    }
    let r = copy_range(s, a, b);
    proof {
        let t = s@.skip(a as int);
        assert(forall|j: int| b - a <= j < t.len() ==> is_space(t[j]));
        if b > a {
            assert(t[b - a - 1] == s@[b - 1]);
        }
        lemma_trim_back_take(t, b - a);
        assert(t.take(b - a) =~= s@.subrange(a as int, b as int));
    }
    r
}

/// The key and value of a header line: the trimmed text on each side of the
/// first colon, if the line has one.
pub open spec fn line_kv(line: Seq<char>) -> Option<(Seq<char>, Seq<char>)> {
    match first_char_at(line, ':') {
        Some(j) => Some((trim_spec(line.take(j)), trim_spec(line.skip(j + 1)))),
        None => None,
    }
}

/// Split a header line at its first colon and trim both sides.
pub fn split_kv(line: &Vec<char>) -> (r: Option<(Vec<char>, Vec<char>)>)
    ensures
        match r {
            Some(kv) => line_kv(line@) == Some((kv.0@, kv.1@)),
            None => line_kv(line@) is None,
        },
{
    let n = line.len();
    let mut j: usize = 0;
    while j < n && line[j] != ':'
        invariant
            j <= n,
            n == line@.len(),
            forall|k: int| 0 <= k < j ==> line@[k] != ':',
        decreases n - j,
    {
        j += 1;
    }
    proof {
        lemma_first_char_at(line@, ':', j as int);
    }
    if j < n {
        let left = copy_range(line, 0, j);
        let right = copy_range(line, j + 1, n);
        let k = trim_chars(&left);
        let v = trim_chars(&right);
        proof {
            assert(line@.subrange(0, j as int) =~= line@.take(j as int));
            assert(line@.subrange(j + 1, n as int) =~= line@.skip(j + 1));
        }
        Some((k, v))
    } else {
        None
    }
}

/// The recognized header fields of a document, each holding the first value
/// assigned to its key, as character sequences.
pub struct HeaderModel {
    pub contract: Option<Seq<char>>,
    pub plain_id: Option<Seq<char>>,
    pub consignment: Option<Seq<char>>,
    pub schema: Option<Seq<char>>,
    pub contract_type: Option<Seq<char>>,
    pub checksum: Option<Seq<char>>,
    pub version: Option<Seq<char>>,
}

/// The model with nothing assigned.
pub open spec fn empty_model() -> HeaderModel {
    HeaderModel {
        contract: None,
        plain_id: None,
        consignment: None,
        schema: None,
        contract_type: None,
        checksum: None,
        version: None,
    }
}

/// A value carrying the consignment identifier prefix.
pub open spec fn has_csg_prefix(v: Seq<char>) -> bool {
    v.len() >= 7 && v.take(7) == seq!['r', 'g', 'b', ':', 'c', 's', 'g']
}

/// One header line applied to the model: the first occurrence of each
/// recognized key wins; an `Id` value with the consignment prefix goes to
/// the consignment slot; unknown keys are ignored.
pub open spec fn apply_line(m: HeaderModel, line: Seq<char>) -> HeaderModel {
    match line_kv(line) {
        None => m,
        Some(kv) => {
            let k = kv.0;
            let v = kv.1;
            if k == "Contract"@ {
                if m.contract is None {
                    HeaderModel { contract: Some(v), ..m }
                } else {
                    m
                }
            } else if k == "Id"@ {
                if has_csg_prefix(v) {
                    if m.consignment is None {
                        HeaderModel { consignment: Some(v), ..m }
                    } else {
                        m
                    }
                } else {
                    if m.plain_id is None {
                        HeaderModel { plain_id: Some(v), ..m }
                    } else {
                        m
                    }
                }
            } else if k == "Schema"@ {
                if m.schema is None {
                    HeaderModel { schema: Some(v), ..m }
                } else {
                    m
                }
            } else if k == "Type"@ {
                if m.contract_type is None {
                    HeaderModel { contract_type: Some(v), ..m }
                } else {
                    m
                }
            } else if k == "Check-SHA256"@ {
                if m.checksum is None {
                    HeaderModel { checksum: Some(v), ..m }
                } else {
                    m
                }
            } else if k == "Version"@ {
                if m.version is None {
                    HeaderModel { version: Some(v), ..m }
                } else {
                    m
                }
            } else {
                m
            }
        },
    }
}

/// All lines applied in order.
pub open spec fn fold_lines(ls: Seq<Seq<char>>, m: HeaderModel) -> HeaderModel
    decreases ls.len(),
{
    if ls.len() == 0 {
        m
    } else {
        fold_lines(ls.drop_first(), apply_line(m, ls[0]))
    }
}

/// The header fields of a header region.
pub open spec fn parse_header_spec(s: Seq<char>) -> HeaderModel {
    fold_lines(lines_of(s), empty_model())
}

/// The resolved primary identifier: `Contract` takes precedence, then a
/// plain `Id`, and without either the identifier stays unresolved.
pub open spec fn primary_of(m: HeaderModel) -> Seq<char> {
    if m.contract is Some {
        m.contract->0
    } else if m.plain_id is Some {
        m.plain_id->0
    } else {
        "rgb1unknown"@
    }
}

/// A header that yields neither a `Contract` value nor a plain `Id` leaves
/// the primary identifier at its unresolved default.
pub proof fn lemma_unresolved_identifier(m: HeaderModel)
    requires
        m.contract is None,
        m.plain_id is None,
    ensures
        primary_of(m) == "rgb1unknown"@,
{
}

/// The recognized header fields of a document as owned strings.
pub struct HeaderFields {
    pub contract: Option<String>,
    pub plain_id: Option<String>,
    pub consignment_id: Option<String>,
    pub schema: Option<String>,
    pub contract_type: Option<String>,
    pub checksum: Option<String>,
    pub version: Option<String>,
}

impl HeaderFields {
    /// The field values as character sequences.
    pub open spec fn model(&self) -> HeaderModel {
        HeaderModel {
            contract: self.contract.deep_view(),
            plain_id: self.plain_id.deep_view(),
            consignment: self.consignment_id.deep_view(),
            schema: self.schema.deep_view(),
            contract_type: self.contract_type.deep_view(),
            checksum: self.checksum.deep_view(),
            version: self.version.deep_view(),
        }
    }
}

/// Compare a character vector with a string slice.
pub fn eq_chars_str(v: &Vec<char>, s: &str) -> (r: bool)
    ensures
        r == (v@ == s@),
{
    let n = s.unicode_len();
    if v.len() != n {
        proof {
            assert(v@ != s@);
        }
        return false;
    }
    let mut i: usize = 0;
    while i < n
        invariant
            n == s@.len(),
            v@.len() == n,
            i <= n,
            forall|j: int| 0 <= j < i ==> v@[j] == s@[j],
        decreases n - i,
    {
        if v[i] != s.get_char(i) {
            return false;
        }
        i += 1;
    }
    proof {
        assert(v@ =~= s@);
    }
    true
}

/// Does the value carry the consignment identifier prefix?
fn has_csg_prefix_exec(v: &Vec<char>) -> (r: bool)
    ensures
        r == has_csg_prefix(v@),
{
    if v.len() < 7 {
        return false;
    }
    let r = v[0] == 'r' && v[1] == 'g' && v[2] == 'b' && v[3] == ':' && v[4] == 'c' && v[5] == 's'
        && v[6] == 'g';
    proof {
        if r {
            assert(v@.take(7) =~= seq!['r', 'g', 'b', ':', 'c', 's', 'g']);
        } else {
            assert(v@.take(7) != seq!['r', 'g', 'b', ':', 'c', 's', 'g']) by {
                if v@.take(7) == seq!['r', 'g', 'b', ':', 'c', 's', 'g'] {
                    assert(v@[0] == v@.take(7)[0]);
                    assert(v@[1] == v@.take(7)[1]);
                    assert(v@[2] == v@.take(7)[2]);
                    assert(v@[3] == v@.take(7)[3]);
                    assert(v@[4] == v@.take(7)[4]);
                    assert(v@[5] == v@.take(7)[5]);
                    assert(v@[6] == v@.take(7)[6]);
                }
            }
        }
    }
    r
}

/// Parse a header region: split it into lines, split each line at its first
/// colon, and assign the first value seen for each recognized key.
pub fn parse_header(header: &Vec<char>) -> (h: HeaderFields)
    ensures
        h.model() == parse_header_spec(header@),
{
    let ls = split_lines(header);
    let mut h = HeaderFields {
        contract: None,
        plain_id: None,
        consignment_id: None,
        schema: None,
        contract_type: None,
        checksum: None,
        version: None,
    };
    let mut i: usize = 0;
    proof {
        assert(ls.deep_view().skip(0) =~= ls.deep_view());
    }
    while i < ls.len()
        invariant
            i <= ls@.len(),
            ls@.len() == ls.deep_view().len(),
            parse_header_spec(header@) == fold_lines(ls.deep_view().skip(i as int), h.model()),
        decreases ls@.len() - i,
    {
        let ghost m0 = h.model();
        let ghost lv = ls.deep_view();
        proof {
            assert(lv.skip(i as int)[0] == lv[i as int]);
            assert(lv[i as int] =~= ls@[i as int]@);
            assert(lv.skip(i as int).drop_first() =~= lv.skip(i + 1));
        }
        match split_kv(&ls[i]) {
            None => {
                proof {
                    assert(apply_line(m0, lv[i as int]) == m0);
                }
            },
            Some(kv) => {
                let (k, v) = kv;
                if eq_chars_str(&k, "Contract") {
                    if h.contract.is_none() {
                        h.contract = Some(crate::text::string_of(&v));
                    }
                } else if eq_chars_str(&k, "Id") {
                    if has_csg_prefix_exec(&v) {
                        if h.consignment_id.is_none() {
                            h.consignment_id = Some(crate::text::string_of(&v));
                        }
                    } else {
                        if h.plain_id.is_none() {
                            h.plain_id = Some(crate::text::string_of(&v));
                        }
                    }
                } else if eq_chars_str(&k, "Schema") {
                    if h.schema.is_none() {
                        h.schema = Some(crate::text::string_of(&v));
                    }
                } else if eq_chars_str(&k, "Type") {
                    if h.contract_type.is_none() {
                        h.contract_type = Some(crate::text::string_of(&v));
                    }
                } else if eq_chars_str(&k, "Check-SHA256") {
                    if h.checksum.is_none() {
                        h.checksum = Some(crate::text::string_of(&v));
                    }
                } else if eq_chars_str(&k, "Version") {
                    if h.version.is_none() {
                        h.version = Some(crate::text::string_of(&v));
                    }
                }
                proof {
                    assert(h.model() == apply_line(m0, lv[i as int]));
                }
            },
        }
        i += 1;
    }
    proof {
        assert(ls.deep_view().skip(i as int) =~= Seq::<Seq<char>>::empty());
    }
    h
}

/// Resolve the primary identifier of parsed header fields.
pub fn resolve_primary(h: &HeaderFields) -> (r: String)
    ensures
        r@ == primary_of(h.model()),
{
    match &h.contract {
        Some(c) => c.clone(),
        None => match &h.plain_id {
            Some(p) => p.clone(),
            None => String::from_str("rgb1unknown"),
        },
    }
}

} // verus!
