//! Finding the anchor elements of a bookmark document, and splicing
//! attributes into it at positions of the original text.
use vstd::prelude::*;

verus! {

/// An anchor element with an `HREF` attribute.
pub const ANCHOR_PATTERN: &'static str = "<A\\b[^>]*HREF\\s*=\\s*['\"](.*?)['\"][^>]*>";

/// The `HREF` attribute inside an anchor element.
pub const HREF_PATTERN: &'static str = "HREF\\s*=\\s*['\"](.*?)['\"]";

/// The byte ranges of the successive non-overlapping matches of `pattern` in
/// `haystack`, or `None` where `pattern` does not compile.
pub uninterp spec fn regex_spans(pattern: Seq<char>, haystack: Seq<u8>) -> Option<Seq<(usize, usize)>>;

/// Each span lies in `0..n` and ends before the next one starts.
pub open spec fn spans_ordered(spans: Seq<(usize, usize)>, n: int) -> bool {
    &&& forall|i: int| 0 <= i < spans.len() ==> #[trigger] spans[i].0 <= spans[i].1 <= n
    &&& forall|i: int, j: int| 0 <= i < j < spans.len() ==> #[trigger] spans[i].1 <= #[trigger] spans[j].0
}

/// Relies on `regex::bytes::Regex::new`, whose success depends on the
/// pattern alone, and on `Regex::find_iter`, which yields the successive
/// non-overlapping matches of the haystack in order, as byte ranges.
#[verifier::external_body]
fn find_all(pattern: &str, haystack: &[u8]) -> (r: Option<Vec<(usize, usize)>>)
    ensures
        r.is_some() == regex_spans(pattern@, haystack@).is_some(),
        r.is_some() ==> r.unwrap()@ == regex_spans(pattern@, haystack@).unwrap(),
        r.is_some() ==> spans_ordered(r.unwrap()@, haystack@.len() as int),
{
    regex::bytes::Regex::new(pattern).ok().map(
        |re| re.find_iter(haystack).map(|m| (m.start(), m.end())).collect(),
    )
}

/// A match of an anchor element: its byte range in the original document and
/// the bytes of its link target.
#[derive(Clone, Debug)]
pub struct AnchorMatch {
    pub start: usize,
    pub end: usize,
    pub href: Vec<u8>,
}

/// Whether a byte is a quote mark, `"` or `'`.
pub open spec fn is_quote(b: u8) -> bool {
    b == 34u8 || b == 39u8
}

/// Index of the first quote mark of `t` in `i..end`, or `end` if none.
pub open spec fn first_quote(t: Seq<u8>, i: int, end: int) -> int
    decreases end - i,
{
    if i >= end {
        end
    } else if is_quote(t[i]) {
        i
    } else {
        first_quote(t, i + 1, end)
    }
}

/// The link target inside the anchor text `tag`: the bytes between the
/// opening quote of the first `HREF=` attribute and its closing quote.
pub open spec fn href_in(tag: Seq<u8>) -> Option<Seq<u8>> {
    match regex_spans(HREF_PATTERN@, tag) {
        Some(ms) => if ms.len() > 0 && first_quote(tag, ms[0].0 as int, ms[0].1 as int) + 1 <= ms[0].1 - 1 {
            Some(tag.subrange(first_quote(tag, ms[0].0 as int, ms[0].1 as int) + 1, ms[0].1 - 1))
        } else {
            None
        },
        None => None,
    }
}

/// The anchor match for a span of `doc`, if the span is not empty and holds
/// a link target.
pub open spec fn link_at(doc: Seq<u8>, span: (usize, usize)) -> Option<(usize, usize, Seq<u8>)> {
    if span.0 < span.1 <= doc.len() {
        match href_in(doc.subrange(span.0 as int, span.1 as int)) {
            Some(h) => Some((span.0, span.1, h)),
            None => None,
        }
    } else {
        None
    }
}

/// The anchor matches of the first `n` spans.
pub open spec fn links_of_spans(doc: Seq<u8>, spans: Seq<(usize, usize)>, n: int) -> Seq<(usize, usize, Seq<u8>)>
    decreases n,
{
    if n <= 0 {
        Seq::empty()
    } else {
        let before = links_of_spans(doc, spans, n - 1);
        match link_at(doc, spans[n - 1]) {
            Some(l) => before.push(l),
            None => before,
        }
    }
}

/// The anchor matches of a document, in document order.
pub open spec fn links_in(doc: Seq<u8>) -> Seq<(usize, usize, Seq<u8>)> {
    match regex_spans(ANCHOR_PATTERN@, doc) {
        Some(spans) => links_of_spans(doc, spans, spans.len() as int),
        None => Seq::empty(),
    }
}

pub open spec fn match_view(m: AnchorMatch) -> (usize, usize, Seq<u8>) {
    (m.start, m.end, m.href@)
}

/// Each match is a non-empty range of a document of `n` bytes, and ends
/// before the next one starts.
pub open spec fn links_ordered(links: Seq<AnchorMatch>, n: int) -> bool {
    &&& forall|i: int| 0 <= i < links.len() ==> #[trigger] links[i].start < links[i].end <= n
    &&& forall|i: int, j: int| 0 <= i < j < links.len() ==> #[trigger] links[i].end <= #[trigger] links[j].start
}

/// The bytes `v[a..b]`.
pub fn copy_range(v: &[u8], a: usize, b: usize) -> (r: Vec<u8>)
    requires
        a <= b <= v@.len(),
    ensures
        r@ == v@.subrange(a as int, b as int),
{
    let mut r: Vec<u8> = Vec::new();
    let mut i: usize = a;
    while i < b
        invariant
            a <= i <= b <= v@.len(),
            r@ == v@.subrange(a as int, i as int),
        decreases b - i,
    {
        r.push(v[i]);
        i = i + 1;
    }
    r
}

/// The link target of an anchor text.
fn find_href(tag: &Vec<u8>) -> (r: Option<Vec<u8>>)
    ensures
        match (r, href_in(tag@)) {
            (Some(a), Some(b)) => a@ == b,
            (None, None) => true,
            _ => false,
        },
{
    match find_all(HREF_PATTERN, tag.as_slice()) {
        Some(ms) => {
            if ms.len() == 0 {
                return None;
            }
            let (s, e) = ms[0];
            proof {
                assert(s <= e <= tag@.len());
            }
            let mut q: usize = s;
            while q < e && !(tag[q] == 34u8 || tag[q] == 39u8)
                invariant
                    s <= q <= e <= tag@.len(),
                    first_quote(tag@, s as int, e as int) == first_quote(tag@, q as int, e as int),
                decreases e - q,
            {
                q = q + 1;
            }
            if q < e && q + 1 <= e - 1 {
                Some(copy_range(tag.as_slice(), q + 1, e - 1))
            } else {
                None
            }
        },
        None => None,
    }
}

/// Scans `doc` for anchor elements, in document order. Spans that hold no
/// link target are passed over.
pub fn extract_links(doc: &Vec<u8>) -> (r: Vec<AnchorMatch>)
    ensures
        r@.map_values(|m: AnchorMatch| match_view(m)) == links_in(doc@),
        links_ordered(r@, doc@.len() as int),
{
    let mut r: Vec<AnchorMatch> = Vec::new();
    match find_all(ANCHOR_PATTERN, doc.as_slice()) {
        None => {
            assert(r@.map_values(|m: AnchorMatch| match_view(m)) =~= links_in(doc@));
        },
        Some(spans) => {
            let ghost ss = spans@;
            let mut i: usize = 0;
            while i < spans.len()
                invariant
                    i <= spans@.len(),
                    ss == spans@,
                    Some(ss) == regex_spans(ANCHOR_PATTERN@, doc@),
                    spans_ordered(ss, doc@.len() as int),
                    r@.map_values(|m: AnchorMatch| match_view(m)) == links_of_spans(doc@, ss, i as int),
                    links_ordered(r@, doc@.len() as int),
                    forall|k: int| 0 <= k < r@.len() ==> r@[k].end <= (if i == 0 { 0 } else { ss[i - 1].1 as int }),
                decreases spans@.len() - i,
            {
                let (s, e) = spans[i];
                proof {
                    assert(spans_ordered(ss, doc@.len() as int));
                    assert(ss[i as int].0 <= ss[i as int].1 <= doc@.len());
                    if i > 0 {
                        assert(ss[i - 1].1 <= ss[i as int].0);
                    }
                }
                if s < e {
                    let tag = copy_range(doc.as_slice(), s, e);
                    match find_href(&tag) {
                        Some(href) => {
                            let ghost hv = href@;
                            r.push(AnchorMatch { start: s, end: e, href });
                            proof {
                                assert(r@.map_values(|m: AnchorMatch| match_view(m)) =~= links_of_spans(doc@, ss, i as int).push((s, e, hv)));
                            }
                        },
                        None => {},
                    }
                }
                i = i + 1;
            }
        },
    }
    r
}

/// `doc` with each `(position, bytes)` of `ins` inserted at that position of
/// the original text. Later insertions at the same position follow earlier ones.
pub open spec fn splice_all(doc: Seq<u8>, ins: Seq<(int, Seq<u8>)>) -> Seq<u8>
    decreases ins.len(),
{
    if ins.len() == 0 {
        doc
    } else {
        let (p, b) = ins.last();
        splice_all(doc.subrange(0, p), ins.drop_last()) + b + doc.subrange(p, doc.len() as int)
    }
}

/// The insertion positions lie in `0..=n` and do not decrease.
pub open spec fn positions_ordered(ins: Seq<(int, Seq<u8>)>, n: int) -> bool {
    &&& forall|i: int| 0 <= i < ins.len() ==> 0 <= #[trigger] ins[i].0 <= n
    &&& forall|i: int, j: int| 0 <= i < j < ins.len() ==> #[trigger] ins[i].0 <= #[trigger] ins[j].0
}

/// Total length of the inserted bytes.
pub open spec fn inserted_len(ins: Seq<(int, Seq<u8>)>) -> int
    decreases ins.len(),
{
    if ins.len() == 0 {
        0
    } else {
        inserted_len(ins.drop_last()) + ins.last().1.len()
    }
}

/// Inserting grows the document by the inserted bytes.
pub proof fn lemma_splice_len(doc: Seq<u8>, ins: Seq<(int, Seq<u8>)>)
    requires
        positions_ordered(ins, doc.len() as int),
    ensures
        splice_all(doc, ins).len() == doc.len() + inserted_len(ins),
    decreases ins.len(),
{
    if ins.len() > 0 {
        let p = ins.last().0;
        let init = ins.drop_last();
        assert(positions_ordered(init, p)) by {
            assert forall|i: int| 0 <= i < init.len() implies 0 <= #[trigger] init[i].0 <= p by {
                assert(ins[i].0 <= ins[ins.len() - 1].0);
            }
        }
        lemma_splice_len(doc.subrange(0, p), init);
    }
}

/// Insertions at or before `p` leave the text from `p` on untouched: it
/// follows the spliced prefix, shifted by the total inserted length. So a
/// position `p` of the original text stands at `p + inserted_len(ins)` in the
/// result.
pub proof fn lemma_splice_offset(doc: Seq<u8>, ins: Seq<(int, Seq<u8>)>, p: int)
    requires
        positions_ordered(ins, p),
        0 <= p <= doc.len(),
    ensures
        splice_all(doc, ins) == splice_all(doc.subrange(0, p), ins) + doc.subrange(p, doc.len() as int),
        splice_all(doc.subrange(0, p), ins).len() == p + inserted_len(ins),
        splice_all(doc, ins).subrange(p + inserted_len(ins), doc.len() + inserted_len(ins))
            == doc.subrange(p, doc.len() as int),
{
    lemma_splice_len(doc.subrange(0, p), ins);
    if ins.len() > 0 {
        let q = ins.last().0;
        let pre = doc.subrange(0, p);
        assert(pre.subrange(0, q) =~= doc.subrange(0, q));
        assert(doc.subrange(q, doc.len() as int) =~= pre.subrange(q, p) + doc.subrange(p, doc.len() as int));
    } else {
        assert(doc =~= doc.subrange(0, p) + doc.subrange(p, doc.len() as int));
    }
    let whole = splice_all(doc, ins);
    let head = splice_all(doc.subrange(0, p), ins);
    assert(whole.subrange(p + inserted_len(ins), doc.len() + inserted_len(ins)) =~= doc.subrange(p, doc.len() as int));
}

} // verus!
