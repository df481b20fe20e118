//! The wire schema: typed representations of the XML request/response bodies
//! — list results, delete-batch request/response, multipart initiate/complete
//! — with bit-exact serialization and validating parsers. Pure data and
//! conversion logic, no I/O.

use vstd::prelude::*;

use crate::error::Error;
use crate::parts::PartId;
use crate::path::{path_wf, Path};
use crate::util::{all_digits, digits_val, parse_number, spec_dec, dec_bytes};
use crate::util::bytes_eq;
use crate::xml::{
    close_tag, concat_bytes, find_from, lemma_concat_push, open_tag, skip_element, skip_ws,
    spec_close_tag, spec_find_from, spec_open_tag, spec_skip_element, spec_skip_ws, spec_text_end,
    spec_unescape, spec_xml_escape, text_end, unescape_region, xml_escape_into,
};
use vstd::string::StringSliceAdditionalSpecFns;
use vstd::string::StrSliceExecFns;
use vstd::utf8::{encode_utf8, valid_utf8};

verus! {

/// One common prefix of a list response.
#[derive(Debug)]
pub struct ListPrefix {
    pub prefix: String,
}

/// One object entry of a list response. `last_modified` holds the timestamp
/// text as sent on the wire; it is validated when the entry is converted to
/// an [`ObjectMeta`].
#[derive(Debug)]
pub struct ListContents {
    pub key: String,
    pub size: usize,
    pub last_modified: String,
    pub e_tag: Option<String>,
}

/// A parsed list response page.
#[derive(Debug)]
pub struct ListResponse {
    pub contents: Vec<ListContents>,
    pub common_prefixes: Vec<ListPrefix>,
    pub next_continuation_token: Option<String>,
}

/// The parsed body of a multipart-initiate response.
#[derive(Debug)]
pub struct InitiateMultipartUploadResult {
    pub upload_id: String,
}

/// The body of a multipart-completion request.
#[derive(Debug)]
pub struct CompleteMultipartUpload {
    pub part: Vec<MultipartPart>,
}

/// One part of a multipart-completion request.
#[derive(Debug)]
pub struct MultipartPart {
    pub e_tag: String,
    pub part_number: usize,
}

/// The parsed body of a multipart-completion response.
#[derive(Debug)]
pub struct CompleteMultipartUploadResult {
    pub e_tag: String,
}

/// Object identity and metadata derived from one list entry.
#[derive(Debug)]
pub struct ObjectMeta {
    pub location: Path,
    /// Milliseconds since the epoch.
    pub last_modified: i64,
    pub size: usize,
    pub e_tag: Option<String>,
    pub version: Option<String>,
}

/// A validated list page: common prefixes and objects, each key a
/// well-formed [`Path`].
#[derive(Debug)]
pub struct ListResult {
    pub common_prefixes: Vec<Path>,
    pub objects: Vec<ObjectMeta>,
}

/// The completion parts for an already-ordered part list: entity tags by
/// position, part numbers 1-based by position, independent of the parts'
/// original submitted indices.
pub open spec fn spec_numbered(ids: Seq<PartId>) -> Seq<MultipartPart> {
    Seq::new(
        ids.len(),
        |i: int| (MultipartPart { e_tag: ids[i].content_id, part_number: (i + 1) as usize }),
    )
}

/// Multipart completion numbering: for an already-ordered part list of
/// length M, the completion body carries the entity tags by position with
/// part numbers 1 through M assigned strictly by position, independent of
/// the parts' original submitted indices.
pub proof fn lemma_completion_numbering(ids: Seq<PartId>)
    requires
        ids.len() <= usize::MAX,
    ensures
        spec_numbered(ids).len() == ids.len(),
        forall|i: int|
            0 <= i < ids.len() ==> (#[trigger] spec_numbered(ids)[i]).part_number == i + 1
                && spec_numbered(ids)[i].e_tag == ids[i].content_id,
{
}

impl CompleteMultipartUpload {
    /// Builds the completion body from an already-ordered part list: part
    /// numbers are 1-based, assigned strictly by position.
    pub fn from(value: Vec<PartId>) -> (r: Self)
        ensures
            r.part@ == spec_numbered(value@),
            r.part@.len() == value@.len(),
            forall|i: int|
                0 <= i < value@.len() ==> (#[trigger] r.part@[i]).e_tag == value@[i].content_id
                    && r.part@[i].part_number == i + 1,
    {
        let ghost orig = value@;
        let mut value = value;
        let total = value.len();
        let mut part: Vec<MultipartPart> = Vec::new();
        while value.len() > 0
            invariant
                orig.len() == total,
                value@ == orig.skip(orig.len() - value@.len()),
                value@.len() <= orig.len(),
                part@.len() == orig.len() - value@.len(),
                forall|i: int|
                    0 <= i < part@.len() ==> (#[trigger] part@[i]).e_tag == orig[i].content_id
                        && part@[i].part_number == i + 1,
            decreases value@.len(),
        {
            let ghost done = orig.len() - value@.len();
            let id = value.remove(0);
            proof {
                assert(id == orig[done]);
                assert(value@ =~= orig.skip(done + 1));
            }
            let n = part.len();
            part.push(MultipartPart { e_tag: id.content_id, part_number: n + 1 });
        }
        proof {
            assert(part@ =~= spec_numbered(orig));
        }
        CompleteMultipartUpload { part }
    }
}

/// The serialized form of one completion part: the entity tag wrapped in
/// literal quote characters, then the 1-based part number.
pub open spec fn spec_part_xml(e_tag: Seq<u8>, n: nat) -> Seq<u8> {
    "<Part><ETag>\"".spec_bytes() + spec_xml_escape(e_tag, false) + "\"</ETag><PartNumber>".spec_bytes()
        + spec_dec(n) + "</PartNumber></Part>".spec_bytes()
}

/// The serialized multipart-completion document.
pub open spec fn spec_complete_doc(parts: Seq<MultipartPart>) -> Seq<u8> {
    "<CompleteMultipartUpload>".spec_bytes() + concat_bytes(
        parts.map_values(|p: MultipartPart| spec_part_xml(encode_utf8(p.e_tag@), p.part_number as nat)),
    ) + "</CompleteMultipartUpload>".spec_bytes()
}

/// Serializes the multipart-completion request body.
pub fn serialize_complete_multipart(req: &CompleteMultipartUpload) -> (r: Vec<u8>)
    ensures
        r@ == spec_complete_doc(req.part@),
{
    let ghost f = |p: MultipartPart| spec_part_xml(encode_utf8(p.e_tag@), p.part_number as nat);
    let mut out: Vec<u8> = Vec::new();
    out.extend_from_slice("<CompleteMultipartUpload>".as_bytes());
    let mut i: usize = 0;
    proof {
        assert(req.part@.take(0).map_values(f) =~= Seq::<Seq<u8>>::empty());
        assert(out@ =~= "<CompleteMultipartUpload>".spec_bytes() + concat_bytes(
            req.part@.take(0).map_values(f),
        ));
    }
    while i < req.part.len()
        invariant
            i <= req.part@.len(),
            out@ == "<CompleteMultipartUpload>".spec_bytes() + concat_bytes(
                req.part@.take(i as int).map_values(f),
            ),
            f == (|p: MultipartPart| spec_part_xml(
                encode_utf8(p.e_tag@),
                p.part_number as nat,
            )),
        decreases req.part@.len() - i,
    {
        let p = &req.part[i];
        out.extend_from_slice("<Part><ETag>\"".as_bytes());
        let etag_bytes = p.e_tag.as_str().as_bytes_vec();
        xml_escape_into(&mut out, &etag_bytes, false);
        out.extend_from_slice("\"</ETag><PartNumber>".as_bytes());
        let num = dec_bytes(p.part_number);
        out.extend_from_slice(num.as_slice());
        out.extend_from_slice("</PartNumber></Part>".as_bytes());
        proof {
            let m = req.part@.take(i as int).map_values(f);
            lemma_concat_push(m, f(req.part@[i as int]));
            assert(req.part@.take(i + 1).map_values(f) =~= m.push(f(req.part@[i as int])));
            assert(out@ =~= "<CompleteMultipartUpload>".spec_bytes() + concat_bytes(
                m.push(f(req.part@[i as int])),
            ));
        }
        i = i + 1;
    }
    out.extend_from_slice("</CompleteMultipartUpload>".as_bytes());
    proof {
        assert(req.part@.take(i as int) =~= req.part@);
    }
    out
}

/// The serialized form of one delete-request entry: the literal (unencoded)
/// key text, escaped as character data.
pub open spec fn spec_object_xml(key: Seq<u8>) -> Seq<u8> {
    "<Object><Key>".spec_bytes() + spec_xml_escape(key, true) + "</Key></Object>".spec_bytes()
}

/// The serialized delete-request document: a root element carrying the
/// namespace attribute, one child per path.
pub open spec fn spec_delete_doc(keys: Seq<Seq<u8>>) -> Seq<u8> {
    "<Delete xmlns=\"http://s3.amazonaws.com/doc/2006-03-01/\">".spec_bytes() + concat_bytes(
        keys.map_values(|k: Seq<u8>| spec_object_xml(k)),
    ) + "</Delete>".spec_bytes()
}

/// Serializes the delete-request body for `paths`.
pub fn serialize_bulk_delete(paths: &Vec<Path>) -> (r: Vec<u8>)
    ensures
        r@ == spec_delete_doc(paths@.map_values(|p: Path| p@)),
{
    let ghost f = |k: Seq<u8>| spec_object_xml(k);
    let ghost pv = |p: Path| p@;
    let mut out: Vec<u8> = Vec::new();
    out.extend_from_slice("<Delete xmlns=\"http://s3.amazonaws.com/doc/2006-03-01/\">".as_bytes());
    let mut i: usize = 0;
    proof {
        assert(paths@.take(0).map_values(pv).map_values(f) =~= Seq::<Seq<u8>>::empty());
        assert(out@ =~= "<Delete xmlns=\"http://s3.amazonaws.com/doc/2006-03-01/\">".spec_bytes()
            + concat_bytes(paths@.take(0).map_values(pv).map_values(f)));
    }
    while i < paths.len()
        invariant
            i <= paths@.len(),
            out@ == "<Delete xmlns=\"http://s3.amazonaws.com/doc/2006-03-01/\">".spec_bytes()
                + concat_bytes(paths@.take(i as int).map_values(pv).map_values(f)),
            f == (|k: Seq<u8>| spec_object_xml(k)),
            pv == (|p: Path| p@),
        decreases paths@.len() - i,
    {
        out.extend_from_slice("<Object><Key>".as_bytes());
        xml_escape_into(&mut out, paths[i].as_bytes(), true);
        out.extend_from_slice("</Key></Object>".as_bytes());
        proof {
            let m = paths@.take(i as int).map_values(pv).map_values(f);
            lemma_concat_push(m, f(pv(paths@[i as int])));
            assert(paths@.take(i + 1).map_values(pv).map_values(f) =~= m.push(
                f(pv(paths@[i as int])),
            ));
            assert(out@ =~= "<Delete xmlns=\"http://s3.amazonaws.com/doc/2006-03-01/\">".spec_bytes()
                + concat_bytes(m.push(f(pv(paths@[i as int])))));
        }
        i = i + 1;
    }
    out.extend_from_slice("</Delete>".as_bytes());
    proof {
        assert(paths@.take(i as int) =~= paths@);
        assert(paths@.map_values(pv).map_values(f) =~= paths@.map_values(
            |p: Path| spec_object_xml(p@),
        ));
        assert(paths@.map_values(pv).map_values(f) =~= paths@.map_values(pv).map_values(
            |k: Seq<u8>| spec_object_xml(k),
        ));
    }
    out
}

/// Position of the root element: leading whitespace and an optional XML
/// declaration are skipped; -1 when the declaration is unterminated.
pub open spec fn spec_doc_start(s: Seq<u8>) -> int {
    let i0 = spec_skip_ws(s, 0);
    if i0 + 1 < s.len() && s[i0] == 60 && s[i0 + 1] == 63 {
        let g = spec_find_from(s, i0, 62);
        if g < 0 {
            -1
        } else {
            spec_skip_ws(s, g + 1)
        }
    } else {
        i0
    }
}

fn doc_start(v: &Vec<u8>) -> (r: Option<usize>)
    ensures
        r matches Some(i) ==> spec_doc_start(v@) == i && i <= v@.len(),
        r is None ==> spec_doc_start(v@) < 0,
{
    let i0 = skip_ws(v, 0);
    if i0 < v.len() && i0 + 1 < v.len() && v[i0] == 60 && v[i0 + 1] == 63 {
        match find_from(v, i0, 62) {
            None => None,
            Some(g) => Some(skip_ws(v, g + 1)),
        }
    } else {
        Some(i0)
    }
}

/// Text-only element content followed by the matching close tag: the
/// unescaped text and the position after the close tag.
pub open spec fn spec_text_field(s: Seq<u8>, i: int, name: Seq<u8>) -> Option<(Seq<u8>, int)> {
    let e = spec_text_end(s, i);
    match spec_unescape(s.subrange(i, e)) {
        None => None,
        Some(t) => match spec_close_tag(s, e) {
            Some((cn, after)) => if cn == name {
                Some((t, after))
            } else {
                None
            },
            None => None,
        },
    }
}

fn text_field(v: &Vec<u8>, i: usize, name: &Vec<u8>) -> (r: Option<(Vec<u8>, usize)>)
    requires
        i <= v@.len(),
    ensures
        r is None ==> spec_text_field(v@, i as int, name@) is None,
        r matches Some((t, after)) ==> spec_text_field(v@, i as int, name@) matches Some(sp) && t@
            == sp.0 && after == sp.1 && after <= v@.len(),
{
    let e = text_end(v, i);
    match unescape_region(v, i, e) {
        None => None,
        Some(t) => match close_tag(v, e) {
            Some((cn, after)) => {
                if bytes_eq(cn.as_slice(), name.as_slice()) {
                    Some((t, after))
                } else {
                    None
                }
            },
            None => None,
        },
    }
}

/// One per-key failure reported inside a delete-batch response.
#[derive(Debug)]
pub struct DeleteError {
    pub key: Vec<u8>,
    pub code: Vec<u8>,
    pub message: Vec<u8>,
}

/// The view of an optional collected field.
pub open spec fn opt_view(o: Option<Vec<u8>>) -> Option<Seq<u8>> {
    match o {
        Some(v) => Some(v@),
        None => None,
    }
}

/// Content of one `<Error>` entry, read from `i` with the fields collected
/// so far: `Key`, `Code` and `Message` must each appear exactly once, in any
/// order; unknown children are skipped.
pub open spec fn spec_error_entry(
    s: Seq<u8>,
    i: int,
    key: Option<Seq<u8>>,
    code: Option<Seq<u8>>,
    msg: Option<Seq<u8>>,
    fuel: nat,
) -> Option<((Seq<u8>, Seq<u8>, Seq<u8>), int)>
    decreases fuel,
{
    let j = spec_skip_ws(s, i);
    match spec_close_tag(s, j) {
        Some((_n, k)) => match (key, code, msg) {
            (Some(kk), Some(cc), Some(mm)) => Some(((kk, cc, mm), k)),
            _ => None,
        },
        None => if fuel == 0 {
            None
        } else {
            match spec_open_tag(s, j) {
                None => None,
                Some((name, k, empty)) => if empty {
                    spec_error_entry(s, k, key, code, msg, (fuel - 1) as nat)
                } else if name == "Key".spec_bytes() {
                    match spec_text_field(s, k, name) {
                        Some((t, after)) => if key is Some {
                            None
                        } else {
                            spec_error_entry(s, after, Some(t), code, msg, (fuel - 1) as nat)
                        },
                        None => None,
                    }
                } else if name == "Code".spec_bytes() {
                    match spec_text_field(s, k, name) {
                        Some((t, after)) => if code is Some {
                            None
                        } else {
                            spec_error_entry(s, after, key, Some(t), msg, (fuel - 1) as nat)
                        },
                        None => None,
                    }
                } else if name == "Message".spec_bytes() {
                    match spec_text_field(s, k, name) {
                        Some((t, after)) => if msg is Some {
                            None
                        } else {
                            spec_error_entry(s, after, key, code, Some(t), (fuel - 1) as nat)
                        },
                        None => None,
                    }
                } else {
                    match spec_skip_element(s, k, 1, (fuel - 1) as nat) {
                        Some(a) => spec_error_entry(s, a, key, code, msg, (fuel - 1) as nat),
                        None => None,
                    }
                },
            }
        },
    }
}

fn error_entry(
    v: &Vec<u8>,
    i: usize,
    key: Option<Vec<u8>>,
    code: Option<Vec<u8>>,
    msg: Option<Vec<u8>>,
    fuel: usize,
) -> (r: Option<(DeleteError, usize)>)
    requires
        i <= v@.len(),
        fuel <= v@.len(),
    ensures
        r is None ==> spec_error_entry(
            v@,
            i as int,
            opt_view(key),
            opt_view(code),
            opt_view(msg),
            fuel as nat,
        ) is None,
        r matches Some((e, after)) ==> spec_error_entry(
            v@,
            i as int,
            opt_view(key),
            opt_view(code),
            opt_view(msg),
            fuel as nat,
        ) matches Some(sp) && e.key@ == sp.0.0 && e.code@ == sp.0.1 && e.message@ == sp.0.2
            && after == sp.1 && after <= v@.len(),
    decreases fuel,
{
    let j = skip_ws(v, i);
    match close_tag(v, j) {
        Some((_n, k)) => match (key, code, msg) {
            (Some(kk), Some(cc), Some(mm)) => Some(
                (DeleteError { key: kk, code: cc, message: mm }, k),
            ),
            _ => None,
        },
        None => {
            if fuel == 0 {
                return None;
            }
            match open_tag(v, j) {
                None => None,
                Some((name, k, empty)) => {
                    if empty {
                        return error_entry(v, k, key, code, msg, fuel - 1);
                    }
                    if bytes_eq(name.as_slice(), "Key".as_bytes()) {
                        match text_field(v, k, &name) {
                            Some((t, after)) => {
                                if key.is_some() {
                                    None
                                } else {
                                    error_entry(v, after, Some(t), code, msg, fuel - 1)
                                }
                            },
                            None => None,
                        }
                    } else if bytes_eq(name.as_slice(), "Code".as_bytes()) {
                        match text_field(v, k, &name) {
                            Some((t, after)) => {
                                if code.is_some() {
                                    None
                                } else {
                                    error_entry(v, after, key, Some(t), msg, fuel - 1)
                                }
                            },
                            None => None,
                        }
                    } else if bytes_eq(name.as_slice(), "Message".as_bytes()) {
                        match text_field(v, k, &name) {
                            Some((t, after)) => {
                                if msg.is_some() {
                                    None
                                } else {
                                    error_entry(v, after, key, code, Some(t), fuel - 1)
                                }
                            },
                            None => None,
                        }
                    } else {
                        match skip_element(v, k, 1, fuel - 1) {
                            Some(a) => error_entry(v, a, key, code, msg, fuel - 1),
                            None => None,
                        }
                    }
                },
            }
        },
    }
}

/// The view of collected delete failures.
pub open spec fn wires_view(s: Seq<DeleteError>) -> Seq<(Seq<u8>, Seq<u8>, Seq<u8>)> {
    s.map_values(|e: DeleteError| (e.key@, e.code@, e.message@))
}

/// Children of the delete-batch response root, read from `i` with the
/// failures collected so far: `Error` entries are collected, `Deleted`
/// entries and any other children are skipped, and the document must end
/// after the root's close tag.
pub open spec fn spec_delete_items(
    s: Seq<u8>,
    i: int,
    acc: Seq<(Seq<u8>, Seq<u8>, Seq<u8>)>,
    fuel: nat,
) -> Option<Seq<(Seq<u8>, Seq<u8>, Seq<u8>)>>
    decreases fuel,
{
    let j = spec_skip_ws(s, i);
    match spec_close_tag(s, j) {
        Some((_n, k)) => if spec_skip_ws(s, k) == s.len() {
            Some(acc)
        } else {
            None
        },
        None => if fuel == 0 {
            None
        } else {
            match spec_open_tag(s, j) {
                None => None,
                Some((name, k, empty)) => if name == "Error".spec_bytes() {
                    if empty {
                        None
                    } else {
                        match spec_error_entry(s, k, None, None, None, (fuel - 1) as nat) {
                            Some((e, after)) => spec_delete_items(
                                s,
                                after,
                                acc.push(e),
                                (fuel - 1) as nat,
                            ),
                            None => None,
                        }
                    }
                } else if empty {
                    spec_delete_items(s, k, acc, (fuel - 1) as nat)
                } else {
                    match spec_skip_element(s, k, 1, (fuel - 1) as nat) {
                        Some(a) => spec_delete_items(s, a, acc, (fuel - 1) as nat),
                        None => None,
                    }
                },
            }
        },
    }
}

fn delete_items(v: &Vec<u8>, i: usize, acc: Vec<DeleteError>, fuel: usize) -> (r: Option<
    Vec<DeleteError>,
>)
    requires
        i <= v@.len(),
        fuel <= v@.len(),
    ensures
        r is None ==> spec_delete_items(v@, i as int, wires_view(acc@), fuel as nat) is None,
        r matches Some(items) ==> spec_delete_items(v@, i as int, wires_view(acc@), fuel as nat)
            == Some(wires_view(items@)),
    decreases fuel,
{
    let j = skip_ws(v, i);
    match close_tag(v, j) {
        Some((_n, k)) => {
            if skip_ws(v, k) == v.len() {
                Some(acc)
            } else {
                None
            }
        },
        None => {
            if fuel == 0 {
                return None;
            }
            match open_tag(v, j) {
                None => None,
                Some((name, k, empty)) => {
                    if bytes_eq(name.as_slice(), "Error".as_bytes()) {
                        if empty {
                            return None;
                        }
                        match error_entry(v, k, None, None, None, fuel - 1) {
                            Some((e, after)) => {
                                let ghost pre = acc@;
                                let mut acc = acc;
                                acc.push(e);
                                proof {
                                    assert(wires_view(acc@) =~= wires_view(pre).push(
                                        (e.key@, e.code@, e.message@),
                                    ));
                                }
                                delete_items(v, after, acc, fuel - 1)
                            },
                            None => None,
                        }
                    } else if empty {
                        delete_items(v, k, acc, fuel - 1)
                    } else {
                        match skip_element(v, k, 1, fuel - 1) {
                            Some(a) => delete_items(v, a, acc, fuel - 1),
                            None => None,
                        }
                    }
                },
            }
        },
    }
}

/// The parse of a whole delete-batch response: the per-key failures, in
/// response order; `None` when the document does not fit the wire schema.
pub open spec fn spec_parse_delete_doc(s: Seq<u8>) -> Option<Seq<(Seq<u8>, Seq<u8>, Seq<u8>)>> {
    let i = spec_doc_start(s);
    if i < 0 {
        None
    } else {
        match spec_open_tag(s, i) {
            None => None,
            Some((_root, k, empty)) => if empty {
                if spec_skip_ws(s, k) == s.len() {
                    Some(Seq::empty())
                } else {
                    None
                }
            } else {
                spec_delete_items(s, k, Seq::empty(), s.len() as nat)
            },
        }
    }
}

/// Parses a delete-batch response body into the per-key failures it reports,
/// in response order. Keys that the response does not mention, or mentions
/// under `Deleted`, yield no entry.
pub fn parse_bulk_delete_response(body: &Vec<u8>) -> (r: Result<Vec<DeleteError>, Error>)
    ensures
        r is Err <==> spec_parse_delete_doc(body@) is None,
        r matches Err(e) ==> e matches Error::InvalidDeleteObjectsResponse { .. },
        r matches Ok(items) ==> spec_parse_delete_doc(body@) == Some(wires_view(items@)),
{
    let parsed: Option<Vec<DeleteError>> = match doc_start(body) {
        None => None,
        Some(i) => match open_tag(body, i) {
            None => None,
            Some((_root, k, empty)) => {
                if empty {
                    if skip_ws(body, k) == body.len() {
                        proof {
                            assert(wires_view(Seq::<DeleteError>::empty()) =~= Seq::<
                                (Seq<u8>, Seq<u8>, Seq<u8>),
                            >::empty());
                        }
                        Some(Vec::new())
                    } else {
                        None
                    }
                } else {
                    proof {
                        assert(wires_view(Seq::<DeleteError>::empty()) =~= Seq::<
                            (Seq<u8>, Seq<u8>, Seq<u8>),
                        >::empty());
                    }
                    delete_items(body, k, Vec::new(), body.len())
                }
            },
        },
    };
    match parsed {
        Some(items) => Ok(items),
        None => Err(
            Error::InvalidDeleteObjectsResponse {
                message: "malformed delete objects response".as_bytes_vec(),
            },
        ),
    }
}

/// Children of the multipart-initiate response root, read from `i`:
/// `UploadId` must appear exactly once; other children are skipped.
pub open spec fn spec_initiate_items(s: Seq<u8>, i: int, uid: Option<Seq<u8>>, fuel: nat) -> Option<
    Seq<u8>,
>
    decreases fuel,
{
    let j = spec_skip_ws(s, i);
    match spec_close_tag(s, j) {
        Some((_n, k)) => if spec_skip_ws(s, k) == s.len() {
            uid
        } else {
            None
        },
        None => if fuel == 0 {
            None
        } else {
            match spec_open_tag(s, j) {
                None => None,
                Some((name, k, empty)) => if empty {
                    spec_initiate_items(s, k, uid, (fuel - 1) as nat)
                } else if name == "UploadId".spec_bytes() {
                    match spec_text_field(s, k, name) {
                        Some((t, after)) => if uid is Some {
                            None
                        } else {
                            spec_initiate_items(s, after, Some(t), (fuel - 1) as nat)
                        },
                        None => None,
                    }
                } else {
                    match spec_skip_element(s, k, 1, (fuel - 1) as nat) {
                        Some(a) => spec_initiate_items(s, a, uid, (fuel - 1) as nat),
                        None => None,
                    }
                },
            }
        },
    }
}

fn initiate_items(v: &Vec<u8>, i: usize, uid: Option<Vec<u8>>, fuel: usize) -> (r: Option<Vec<u8>>)
    requires
        i <= v@.len(),
        fuel <= v@.len(),
    ensures
        r is None ==> spec_initiate_items(v@, i as int, opt_view(uid), fuel as nat) is None,
        r matches Some(t) ==> spec_initiate_items(v@, i as int, opt_view(uid), fuel as nat) == Some(
            t@,
        ),
    decreases fuel,
{
    let j = skip_ws(v, i);
    match close_tag(v, j) {
        Some((_n, k)) => {
            if skip_ws(v, k) == v.len() {
                uid
            } else {
                None
            }
        },
        None => {
            if fuel == 0 {
                return None;
            }
            match open_tag(v, j) {
                None => None,
                Some((name, k, empty)) => {
                    if empty {
                        initiate_items(v, k, uid, fuel - 1)
                    } else if bytes_eq(name.as_slice(), "UploadId".as_bytes()) {
                        match text_field(v, k, &name) {
                            Some((t, after)) => {
                                if uid.is_some() {
                                    None
                                } else {
                                    initiate_items(v, after, Some(t), fuel - 1)
                                }
                            },
                            None => None,
                        }
                    } else {
                        match skip_element(v, k, 1, fuel - 1) {
                            Some(a) => initiate_items(v, a, uid, fuel - 1),
                            None => None,
                        }
                    }
                },
            }
        },
    }
}

/// The parse of a whole multipart-initiate response: the upload id's bytes.
pub open spec fn spec_parse_initiate_doc(s: Seq<u8>) -> Option<Seq<u8>> {
    let i = spec_doc_start(s);
    if i < 0 {
        None
    } else {
        match spec_open_tag(s, i) {
            None => None,
            Some((_root, k, empty)) => if empty {
                None
            } else {
                spec_initiate_items(s, k, None, s.len() as nat)
            },
        }
    }
}

/// Relies on String::from_utf8: succeeds exactly on valid UTF-8, and the
/// returned string holds the given bytes.
#[verifier::external_body]
fn bytes_to_string(v: Vec<u8>) -> (r: Option<String>)
    ensures
        r is Some <==> valid_utf8(v@),
        r matches Some(s) ==> encode_utf8(s@) == v@,
{
    String::from_utf8(v).ok()
}

/// Epoch milliseconds denoted by an RFC 3339 timestamp text, or `None` where
/// the text is not one; a function of the bytes alone.
pub uninterp spec fn rfc3339_millis(b: Seq<u8>) -> Option<i64>;

/// Relies on chrono::DateTime::parse_from_rfc3339 and timestamp_millis: the
/// parse's outcome, and the timestamp's epoch milliseconds, depend on the
/// text alone.
#[verifier::external_body]
fn parse_rfc3339(b: &Vec<u8>) -> (r: Option<i64>)
    ensures
        r == rfc3339_millis(b@),
{
    let s = core::str::from_utf8(b.as_slice()).ok()?;
    chrono::DateTime::parse_from_rfc3339(s).ok().map(|d| d.timestamp_millis())
}

/// Parses a multipart-initiate response body into its upload id.
pub fn parse_initiate_response(body: &Vec<u8>) -> (r: Result<InitiateMultipartUploadResult, Error>)
    ensures
        r is Ok <==> (spec_parse_initiate_doc(body@) matches Some(t) && valid_utf8(t)),
        r matches Ok(res) ==> spec_parse_initiate_doc(body@) == Some(encode_utf8(res.upload_id@)),
        r matches Err(e) ==> e matches Error::InvalidMultipartResponse { .. },
{
    let parsed: Option<Vec<u8>> = match doc_start(body) {
        None => None,
        Some(i) => match open_tag(body, i) {
            None => None,
            Some((_root, k, empty)) => {
                if empty {
                    None
                } else {
                    initiate_items(body, k, None, body.len())
                }
            },
        },
    };
    match parsed {
        Some(t) => match bytes_to_string(t) {
            Some(s) => Ok(InitiateMultipartUploadResult { upload_id: s }),
            None => Err(
                Error::InvalidMultipartResponse {
                    message: "upload id is not valid UTF-8".as_bytes_vec(),
                },
            ),
        },
        None => Err(
            Error::InvalidMultipartResponse {
                message: "malformed initiate multipart response".as_bytes_vec(),
            },
        ),
    }
}

/// One list entry as read off the wire: key, size text, last-modified text,
/// optional entity tag.
#[derive(Debug)]
pub struct ContentsWire {
    pub key: Vec<u8>,
    pub size: Vec<u8>,
    pub last_modified: Vec<u8>,
    pub e_tag: Option<Vec<u8>>,
}

/// The view of one wire list entry.
pub open spec fn contents_view(c: ContentsWire) -> (Seq<u8>, Seq<u8>, Seq<u8>, Option<Seq<u8>>) {
    (c.key@, c.size@, c.last_modified@, opt_view(c.e_tag))
}

/// Content of one `<Contents>` entry, read from `i` with the fields
/// collected so far: `Key`, `Size` and `LastModified` must each appear
/// exactly once, `ETag` at most once, in any order; unknown children are
/// skipped.
pub open spec fn spec_contents_entry(
    s: Seq<u8>,
    i: int,
    key: Option<Seq<u8>>,
    size: Option<Seq<u8>>,
    lm: Option<Seq<u8>>,
    etag: Option<Seq<u8>>,
    fuel: nat,
) -> Option<((Seq<u8>, Seq<u8>, Seq<u8>, Option<Seq<u8>>), int)>
    decreases fuel,
{
    let j = spec_skip_ws(s, i);
    match spec_close_tag(s, j) {
        Some((_n, k)) => match (key, size, lm) {
            (Some(kk), Some(ss), Some(ll)) => Some(((kk, ss, ll, etag), k)),
            _ => None,
        },
        None => if fuel == 0 {
            None
        } else {
            match spec_open_tag(s, j) {
                None => None,
                Some((name, k, empty)) => if empty {
                    spec_contents_entry(s, k, key, size, lm, etag, (fuel - 1) as nat)
                } else if name == "Key".spec_bytes() {
                    match spec_text_field(s, k, name) {
                        Some((t, after)) => if key is Some {
                            None
                        } else {
                            spec_contents_entry(s, after, Some(t), size, lm, etag, (fuel - 1) as nat)
                        },
                        None => None,
                    }
                } else if name == "Size".spec_bytes() {
                    match spec_text_field(s, k, name) {
                        Some((t, after)) => if size is Some {
                            None
                        } else {
                            spec_contents_entry(s, after, key, Some(t), lm, etag, (fuel - 1) as nat)
                        },
                        None => None,
                    }
                } else if name == "LastModified".spec_bytes() {
                    match spec_text_field(s, k, name) {
                        Some((t, after)) => if lm is Some {
                            None
                        } else {
                            spec_contents_entry(s, after, key, size, Some(t), etag, (fuel - 1) as nat)
                        },
                        None => None,
                    }
                } else if name == "ETag".spec_bytes() {
                    match spec_text_field(s, k, name) {
                        Some((t, after)) => if etag is Some {
                            None
                        } else {
                            spec_contents_entry(s, after, key, size, lm, Some(t), (fuel - 1) as nat)
                        },
                        None => None,
                    }
                } else {
                    match spec_skip_element(s, k, 1, (fuel - 1) as nat) {
                        Some(a) => spec_contents_entry(s, a, key, size, lm, etag, (fuel - 1) as nat),
                        None => None,
                    }
                },
            }
        },
    }
}

fn contents_entry(
    v: &Vec<u8>,
    i: usize,
    key: Option<Vec<u8>>,
    size: Option<Vec<u8>>,
    lm: Option<Vec<u8>>,
    etag: Option<Vec<u8>>,
    fuel: usize,
) -> (r: Option<(ContentsWire, usize)>)
    requires
        i <= v@.len(),
        fuel <= v@.len(),
    ensures
        r is None ==> spec_contents_entry(
            v@,
            i as int,
            opt_view(key),
            opt_view(size),
            opt_view(lm),
            opt_view(etag),
            fuel as nat,
        ) is None,
        r matches Some((c, after)) ==> spec_contents_entry(
            v@,
            i as int,
            opt_view(key),
            opt_view(size),
            opt_view(lm),
            opt_view(etag),
            fuel as nat,
        ) matches Some(sp) && contents_view(c) == sp.0 && after == sp.1 && after <= v@.len(),
    decreases fuel,
{
    let j = skip_ws(v, i);
    match close_tag(v, j) {
        Some((_n, k)) => match (key, size, lm) {
            (Some(kk), Some(ss), Some(ll)) => Some(
                (ContentsWire { key: kk, size: ss, last_modified: ll, e_tag: etag }, k),
            ),
            _ => None,
        },
        None => {
            if fuel == 0 {
                return None;
            }
            match open_tag(v, j) {
                None => None,
                Some((name, k, empty)) => {
                    if empty {
                        return contents_entry(v, k, key, size, lm, etag, fuel - 1);
                    }
                    if bytes_eq(name.as_slice(), "Key".as_bytes()) {
                        match text_field(v, k, &name) {
                            Some((t, after)) => {
                                if key.is_some() {
                                    None
                                } else {
                                    contents_entry(v, after, Some(t), size, lm, etag, fuel - 1)
                                }
                            },
                            None => None,
                        }
                    } else if bytes_eq(name.as_slice(), "Size".as_bytes()) {
                        match text_field(v, k, &name) {
                            Some((t, after)) => {
                                if size.is_some() {
                                    None
                                } else {
                                    contents_entry(v, after, key, Some(t), lm, etag, fuel - 1)
                                }
                            },
                            None => None,
                        }
                    } else if bytes_eq(name.as_slice(), "LastModified".as_bytes()) {
                        match text_field(v, k, &name) {
                            Some((t, after)) => {
                                if lm.is_some() {
                                    None
                                } else {
                                    contents_entry(v, after, key, size, Some(t), etag, fuel - 1)
                                }
                            },
                            None => None,
                        }
                    } else if bytes_eq(name.as_slice(), "ETag".as_bytes()) {
                        match text_field(v, k, &name) {
                            Some((t, after)) => {
                                if etag.is_some() {
                                    None
                                } else {
                                    contents_entry(v, after, key, size, lm, Some(t), fuel - 1)
                                }
                            },
                            None => None,
                        }
                    } else {
                        match skip_element(v, k, 1, fuel - 1) {
                            Some(a) => contents_entry(v, a, key, size, lm, etag, fuel - 1),
                            None => None,
                        }
                    }
                },
            }
        },
    }
}

/// Content of one `<CommonPrefixes>` entry: `Prefix` exactly once; unknown
/// children skipped.
pub open spec fn spec_prefix_entry(s: Seq<u8>, i: int, pre: Option<Seq<u8>>, fuel: nat) -> Option<
    (Seq<u8>, int),
>
    decreases fuel,
{
    let j = spec_skip_ws(s, i);
    match spec_close_tag(s, j) {
        Some((_n, k)) => match pre {
            Some(p) => Some((p, k)),
            None => None,
        },
        None => if fuel == 0 {
            None
        } else {
            match spec_open_tag(s, j) {
                None => None,
                Some((name, k, empty)) => if empty {
                    spec_prefix_entry(s, k, pre, (fuel - 1) as nat)
                } else if name == "Prefix".spec_bytes() {
                    match spec_text_field(s, k, name) {
                        Some((t, after)) => if pre is Some {
                            None
                        } else {
                            spec_prefix_entry(s, after, Some(t), (fuel - 1) as nat)
                        },
                        None => None,
                    }
                } else {
                    match spec_skip_element(s, k, 1, (fuel - 1) as nat) {
                        Some(a) => spec_prefix_entry(s, a, pre, (fuel - 1) as nat),
                        None => None,
                    }
                },
            }
        },
    }
}

fn prefix_entry(v: &Vec<u8>, i: usize, pre: Option<Vec<u8>>, fuel: usize) -> (r: Option<
    (Vec<u8>, usize),
>)
    requires
        i <= v@.len(),
        fuel <= v@.len(),
    ensures
        r is None ==> spec_prefix_entry(v@, i as int, opt_view(pre), fuel as nat) is None,
        r matches Some((p, after)) ==> spec_prefix_entry(v@, i as int, opt_view(pre), fuel as nat)
            matches Some(sp) && p@ == sp.0 && after == sp.1 && after <= v@.len(),
    decreases fuel,
{
    let j = skip_ws(v, i);
    match close_tag(v, j) {
        Some((_n, k)) => match pre {
            Some(p) => Some((p, k)),
            None => None,
        },
        None => {
            if fuel == 0 {
                return None;
            }
            match open_tag(v, j) {
                None => None,
                Some((name, k, empty)) => {
                    if empty {
                        prefix_entry(v, k, pre, fuel - 1)
                    } else if bytes_eq(name.as_slice(), "Prefix".as_bytes()) {
                        match text_field(v, k, &name) {
                            Some((t, after)) => {
                                if pre.is_some() {
                                    None
                                } else {
                                    prefix_entry(v, after, Some(t), fuel - 1)
                                }
                            },
                            None => None,
                        }
                    } else {
                        match skip_element(v, k, 1, fuel - 1) {
                            Some(a) => prefix_entry(v, a, pre, fuel - 1),
                            None => None,
                        }
                    }
                },
            }
        },
    }
}

/// The views of collected wire list entries and prefixes.
pub open spec fn cw_view(s: Seq<ContentsWire>) -> Seq<(Seq<u8>, Seq<u8>, Seq<u8>, Option<Seq<u8>>)> {
    s.map_values(|c: ContentsWire| contents_view(c))
}

/// The views of collected prefixes.
pub open spec fn pw_view(s: Seq<Vec<u8>>) -> Seq<Seq<u8>> {
    s.map_values(|p: Vec<u8>| p@)
}

/// Children of the list response root, read from `i` with what was collected
/// so far: `Contents` and `CommonPrefixes` entries are collected in response
/// order, `NextContinuationToken` at most once; other children are skipped.
pub open spec fn spec_list_items(
    s: Seq<u8>,
    i: int,
    cw: Seq<(Seq<u8>, Seq<u8>, Seq<u8>, Option<Seq<u8>>)>,
    pw: Seq<Seq<u8>>,
    tk: Option<Seq<u8>>,
    fuel: nat,
) -> Option<(Seq<(Seq<u8>, Seq<u8>, Seq<u8>, Option<Seq<u8>>)>, Seq<Seq<u8>>, Option<Seq<u8>>)>
    decreases fuel,
{
    let j = spec_skip_ws(s, i);
    match spec_close_tag(s, j) {
        Some((_n, k)) => if spec_skip_ws(s, k) == s.len() {
            Some((cw, pw, tk))
        } else {
            None
        },
        None => if fuel == 0 {
            None
        } else {
            match spec_open_tag(s, j) {
                None => None,
                Some((name, k, empty)) => if name == "Contents".spec_bytes() {
                    if empty {
                        None
                    } else {
                        match spec_contents_entry(s, k, None, None, None, None, (fuel - 1) as nat) {
                            Some((c, after)) => spec_list_items(
                                s,
                                after,
                                cw.push(c),
                                pw,
                                tk,
                                (fuel - 1) as nat,
                            ),
                            None => None,
                        }
                    }
                } else if name == "CommonPrefixes".spec_bytes() {
                    if empty {
                        None
                    } else {
                        match spec_prefix_entry(s, k, None, (fuel - 1) as nat) {
                            Some((p, after)) => spec_list_items(
                                s,
                                after,
                                cw,
                                pw.push(p),
                                tk,
                                (fuel - 1) as nat,
                            ),
                            None => None,
                        }
                    }
                } else if name == "NextContinuationToken".spec_bytes() {
                    if empty {
                        spec_list_items(s, k, cw, pw, tk, (fuel - 1) as nat)
                    } else {
                        match spec_text_field(s, k, name) {
                            Some((t, after)) => if tk is Some {
                                None
                            } else {
                                spec_list_items(s, after, cw, pw, Some(t), (fuel - 1) as nat)
                            },
                            None => None,
                        }
                    }
                } else if empty {
                    spec_list_items(s, k, cw, pw, tk, (fuel - 1) as nat)
                } else {
                    match spec_skip_element(s, k, 1, (fuel - 1) as nat) {
                        Some(a) => spec_list_items(s, a, cw, pw, tk, (fuel - 1) as nat),
                        None => None,
                    }
                },
            }
        },
    }
}

fn list_items(
    v: &Vec<u8>,
    i: usize,
    cw: Vec<ContentsWire>,
    pw: Vec<Vec<u8>>,
    tk: Option<Vec<u8>>,
    fuel: usize,
) -> (r: Option<(Vec<ContentsWire>, Vec<Vec<u8>>, Option<Vec<u8>>)>)
    requires
        i <= v@.len(),
        fuel <= v@.len(),
    ensures
        r is None ==> spec_list_items(
            v@,
            i as int,
            cw_view(cw@),
            pw_view(pw@),
            opt_view(tk),
            fuel as nat,
        ) is None,
        r matches Some((c, p, t)) ==> spec_list_items(
            v@,
            i as int,
            cw_view(cw@),
            pw_view(pw@),
            opt_view(tk),
            fuel as nat,
        ) == Some((cw_view(c@), pw_view(p@), opt_view(t))),
    decreases fuel,
{
    let j = skip_ws(v, i);
    match close_tag(v, j) {
        Some((_n, k)) => {
            if skip_ws(v, k) == v.len() {
                Some((cw, pw, tk))
            } else {
                None
            }
        },
        None => {
            if fuel == 0 {
                return None;
            }
            match open_tag(v, j) {
                None => None,
                Some((name, k, empty)) => {
                    if bytes_eq(name.as_slice(), "Contents".as_bytes()) {
                        if empty {
                            return None;
                        }
                        match contents_entry(v, k, None, None, None, None, fuel - 1) {
                            Some((c, after)) => {
                                let ghost pre = cw@;
                                let mut cw = cw;
                                let ghost cv = contents_view(c);
                                cw.push(c);
                                proof {
                                    assert(cw_view(cw@) =~= cw_view(pre).push(cv));
                                }
                                list_items(v, after, cw, pw, tk, fuel - 1)
                            },
                            None => None,
                        }
                    } else if bytes_eq(name.as_slice(), "CommonPrefixes".as_bytes()) {
                        if empty {
                            return None;
                        }
                        match prefix_entry(v, k, None, fuel - 1) {
                            Some((p, after)) => {
                                let ghost pre = pw@;
                                let ghost pv = p@;
                                let mut pw = pw;
                                pw.push(p);
                                proof {
                                    assert(pw_view(pw@) =~= pw_view(pre).push(pv));
                                }
                                list_items(v, after, cw, pw, tk, fuel - 1)
                            },
                            None => None,
                        }
                    } else if bytes_eq(name.as_slice(), "NextContinuationToken".as_bytes()) {
                        if empty {
                            return list_items(v, k, cw, pw, tk, fuel - 1);
                        }
                        match text_field(v, k, &name) {
                            Some((t, after)) => {
                                if tk.is_some() {
                                    None
                                } else {
                                    list_items(v, after, cw, pw, Some(t), fuel - 1)
                                }
                            },
                            None => None,
                        }
                    } else if empty {
                        list_items(v, k, cw, pw, tk, fuel - 1)
                    } else {
                        match skip_element(v, k, 1, fuel - 1) {
                            Some(a) => list_items(v, a, cw, pw, tk, fuel - 1),
                            None => None,
                        }
                    }
                },
            }
        },
    }
}

/// The parse of a whole list response: entries, prefixes and the
/// continuation token, each as wire bytes.
pub open spec fn spec_parse_list_doc(s: Seq<u8>) -> Option<
    (Seq<(Seq<u8>, Seq<u8>, Seq<u8>, Option<Seq<u8>>)>, Seq<Seq<u8>>, Option<Seq<u8>>),
> {
    let i = spec_doc_start(s);
    if i < 0 {
        None
    } else {
        match spec_open_tag(s, i) {
            None => None,
            Some((_root, k, empty)) => if empty {
                if spec_skip_ws(s, k) == s.len() {
                    Some((Seq::empty(), Seq::empty(), None))
                } else {
                    None
                }
            } else {
                spec_list_items(s, k, Seq::empty(), Seq::empty(), None, s.len() as nat)
            },
        }
    }
}

/// Whether one wire list entry can be represented: texts valid UTF-8, the
/// size a decimal number that fits the machine.
pub open spec fn contents_ok(c: (Seq<u8>, Seq<u8>, Seq<u8>, Option<Seq<u8>>)) -> bool {
    &&& valid_utf8(c.0)
    &&& all_digits(c.1)
    &&& 1 <= c.1.len() <= 19
    &&& digits_val(c.1) <= usize::MAX
    &&& valid_utf8(c.2)
    &&& (c.3 matches Some(t) ==> valid_utf8(t))
}

/// Whether a whole parsed list page can be represented.
pub open spec fn list_wire_ok(
    w: (Seq<(Seq<u8>, Seq<u8>, Seq<u8>, Option<Seq<u8>>)>, Seq<Seq<u8>>, Option<Seq<u8>>),
) -> bool {
    &&& forall|i: int| 0 <= i < w.0.len() ==> contents_ok(#[trigger] w.0[i])
    &&& forall|i: int| 0 <= i < w.1.len() ==> valid_utf8(#[trigger] w.1[i])
    &&& (w.2 matches Some(t) ==> valid_utf8(t))
}

/// One represented list entry against its wire form.
pub open spec fn contents_matches(
    lc: ListContents,
    c: (Seq<u8>, Seq<u8>, Seq<u8>, Option<Seq<u8>>),
) -> bool {
    &&& encode_utf8(lc.key@) == c.0
    &&& lc.size == digits_val(c.1)
    &&& encode_utf8(lc.last_modified@) == c.2
    &&& match (lc.e_tag, c.3) {
        (Option::None, Option::None) => true,
        (Option::Some(s), Option::Some(t)) => encode_utf8(s@) == t,
        _ => false,
    }
}

/// A represented list page against its wire form.
pub open spec fn list_matches(
    lr: ListResponse,
    w: (Seq<(Seq<u8>, Seq<u8>, Seq<u8>, Option<Seq<u8>>)>, Seq<Seq<u8>>, Option<Seq<u8>>),
) -> bool {
    &&& lr.contents@.len() == w.0.len()
    &&& forall|i: int|
        0 <= i < w.0.len() ==> contents_matches(#[trigger] lr.contents@[i], w.0[i])
    &&& lr.common_prefixes@.len() == w.1.len()
    &&& forall|i: int|
        0 <= i < w.1.len() ==> encode_utf8(#[trigger] lr.common_prefixes@[i].prefix@) == w.1[i]
    &&& match (lr.next_continuation_token, w.2) {
        (Option::None, Option::None) => true,
        (Option::Some(s), Option::Some(t)) => encode_utf8(s@) == t,
        _ => false,
    }
}

fn list_error() -> (r: Error)
    ensures
        r matches Error::InvalidListResponse { .. },
{
    Error::InvalidListResponse { message: "malformed list response".as_bytes_vec() }
}

/// Parses a list response body into one page: object entries, common
/// prefixes and the optional continuation token for the next page.
#[verifier::loop_isolation(false)]
pub fn parse_list_response(body: &Vec<u8>) -> (r: Result<ListResponse, Error>)
    ensures
        r is Ok <==> (spec_parse_list_doc(body@) matches Some(w) && list_wire_ok(w)),
        r matches Ok(lr) ==> spec_parse_list_doc(body@) matches Some(w) && list_matches(lr, w),
        r matches Err(e) ==> e matches Error::InvalidListResponse { .. },
{
    let parsed: Option<(Vec<ContentsWire>, Vec<Vec<u8>>, Option<Vec<u8>>)> = match doc_start(body) {
        None => None,
        Some(i) => match open_tag(body, i) {
            None => None,
            Some((_root, k, empty)) => {
                if empty {
                    if skip_ws(body, k) == body.len() {
                        proof {
                            assert(cw_view(Seq::<ContentsWire>::empty()) =~= Seq::<
                                (Seq<u8>, Seq<u8>, Seq<u8>, Option<Seq<u8>>),
                            >::empty());
                            assert(pw_view(Seq::<Vec<u8>>::empty()) =~= Seq::<Seq<u8>>::empty());
                        }
                        Some((Vec::new(), Vec::new(), None))
                    } else {
                        None
                    }
                } else {
                    proof {
                        assert(cw_view(Seq::<ContentsWire>::empty()) =~= Seq::<
                            (Seq<u8>, Seq<u8>, Seq<u8>, Option<Seq<u8>>),
                        >::empty());
                        assert(pw_view(Seq::<Vec<u8>>::empty()) =~= Seq::<Seq<u8>>::empty());
                    }
                    list_items(body, k, Vec::new(), Vec::new(), None, body.len())
                }
            },
        },
    };
    let (cw, pw, tk) = match parsed {
        Some(t) => t,
        None => {
            return Err(list_error());
        },
    };
    let ghost w = (cw_view(cw@), pw_view(pw@), opt_view(tk));
    proof {
        assert(spec_parse_list_doc(body@) == Some(w));
    }
    // convert entries
    let mut cw = cw;
    let total_c = cw.len();
    let ghost corig = cw@;
    let mut contents: Vec<ListContents> = Vec::new();
    while cw.len() > 0
        invariant
            spec_parse_list_doc(body@) == Some(w),
            w == (cw_view(corig), pw_view(pw@), opt_view(tk)),
            corig.len() == total_c,
            cw@ == corig.skip(corig.len() - cw@.len()),
            cw@.len() <= corig.len(),
            contents@.len() == corig.len() - cw@.len(),
            forall|i: int|
                0 <= i < contents@.len() ==> contents_ok(#[trigger] cw_view(corig)[i])
                    && contents_matches(contents@[i], cw_view(corig)[i]),
        decreases cw@.len(),
    {
        let ghost done = corig.len() - cw@.len();
        let c = cw.remove(0);
        proof {
            assert(c == corig[done]);
            assert(cw@ =~= corig.skip(done + 1));
            assert(cw_view(corig)[done] == contents_view(corig[done]));
        }
        let size_n = match parse_number(&c.size, 0, c.size.len()) {
            Some(n) => n,
            None => {
                proof {
                    assert(c.size@.subrange(0, c.size@.len() as int) =~= c.size@);
                    assert(!contents_ok(cw_view(corig)[done]));
                    assert(w.0 == cw_view(corig));
                    assert(!list_wire_ok(w));
                }
                return Err(list_error());
            },
        };
        proof {
            assert(c.size@.subrange(0, c.size@.len() as int) =~= c.size@);
        }
        if size_n > usize::MAX as u64 {
            proof {
                assert(!contents_ok(cw_view(corig)[done]));
            }
            return Err(list_error());
        }
        let key = match bytes_to_string(c.key) {
            Some(s) => s,
            None => {
                proof {
                    assert(!contents_ok(cw_view(corig)[done]));
                    assert(w.0 == cw_view(corig));
                    assert(!list_wire_ok(w));
                }
                return Err(list_error());
            },
        };
        let lm = match bytes_to_string(c.last_modified) {
            Some(s) => s,
            None => {
                proof {
                    assert(!contents_ok(cw_view(corig)[done]));
                    assert(w.0 == cw_view(corig));
                    assert(!list_wire_ok(w));
                }
                return Err(list_error());
            },
        };
        let etag: Option<String> = match c.e_tag {
            Some(t) => match bytes_to_string(t) {
                Some(s) => Some(s),
                None => {
                    proof {
                        assert(!contents_ok(cw_view(corig)[done]));
                    }
                    return Err(list_error());
                },
            },
            None => None,
        };
        contents.push(
            ListContents { key, size: size_n as usize, last_modified: lm, e_tag: etag },
        );
    }
    proof {
        assert(corig.skip(0) =~= corig);
    }
    // convert prefixes
    let mut pw = pw;
    let total_p = pw.len();
    let ghost porig = pw@;
    let mut prefixes: Vec<ListPrefix> = Vec::new();
    while pw.len() > 0
        invariant
            spec_parse_list_doc(body@) == Some(w),
            w.0 == cw_view(corig),
            w.1 == pw_view(porig),
            w.2 == opt_view(tk),
            contents@.len() == corig.len(),
            forall|i: int|
                0 <= i < contents@.len() ==> contents_ok(#[trigger] cw_view(corig)[i])
                    && contents_matches(contents@[i], cw_view(corig)[i]),
            porig.len() == total_p,
            pw@ == porig.skip(porig.len() - pw@.len()),
            pw@.len() <= porig.len(),
            prefixes@.len() == porig.len() - pw@.len(),
            forall|i: int|
                0 <= i < prefixes@.len() ==> valid_utf8(#[trigger] pw_view(porig)[i])
                    && encode_utf8(prefixes@[i].prefix@) == pw_view(porig)[i],
        decreases pw@.len(),
    {
        let ghost done = porig.len() - pw@.len();
        let p = pw.remove(0);
        proof {
            assert(p == porig[done]);
            assert(pw@ =~= porig.skip(done + 1));
            assert(pw_view(porig)[done] == porig[done]@);
        }
        match bytes_to_string(p) {
            Some(s) => {
                prefixes.push(ListPrefix { prefix: s });
            },
            None => {
                proof {
                    assert(!valid_utf8(pw_view(porig)[done]));
                    assert(w.1 == pw_view(porig));
                    assert(!list_wire_ok(w));
                }
                return Err(list_error());
            },
        }
    }
    proof {
        assert(porig.skip(0) =~= porig);
    }
    // convert the token
    let token: Option<String> = match tk {
        Some(t) => match bytes_to_string(t) {
            Some(s) => Some(s),
            None => {
                return Err(list_error());
            },
        },
        None => None,
    };
    Ok(ListResponse { contents, common_prefixes: prefixes, next_continuation_token: token })
}

/// Whether one list entry can become an [`ObjectMeta`]: its key satisfies
/// the path rules and its timestamp text parses.
pub open spec fn meta_ok(c: ListContents) -> bool {
    path_wf(encode_utf8(c.key@)) && rfc3339_millis(encode_utf8(c.last_modified@)) is Some
}

impl ObjectMeta {
    /// Validates one list entry: the key must be a well-formed path and the
    /// timestamp must parse.
    pub fn try_from(value: ListContents) -> (r: Result<ObjectMeta, Error>)
        ensures
            r is Ok <==> meta_ok(value),
            r matches Ok(m) ==> {
                &&& m.location@ == encode_utf8(value.key@)
                &&& Some(m.last_modified) == rfc3339_millis(encode_utf8(value.last_modified@))
                &&& m.size == value.size
                &&& m.e_tag == value.e_tag
                &&& m.version is None
            },
            r matches Err(e) ==> (e matches Error::InvalidPath { .. } || e matches
                Error::InvalidListResponse { .. }),
    {
        let location = match Path::parse(value.key.as_str()) {
            Ok(p) => p,
            Err(e) => {
                return Err(e);
            },
        };
        let lm_bytes = value.last_modified.as_str().as_bytes_vec();
        let last_modified = match parse_rfc3339(&lm_bytes) {
            Some(t) => t,
            None => {
                return Err(
                    Error::InvalidListResponse {
                        message: "invalid last-modified timestamp".as_bytes_vec(),
                    },
                );
            },
        };
        Ok(
            ObjectMeta {
                location,
                last_modified,
                size: value.size,
                e_tag: value.e_tag,
                version: None,
            },
        )
    }
}

impl ListResult {
    /// Validates a parsed list page: every common prefix and every entry key
    /// must be a well-formed path, and every timestamp must parse, or the
    /// whole page is rejected.
    #[verifier::loop_isolation(false)]
    pub fn try_from(value: ListResponse) -> (r: Result<ListResult, Error>)
        ensures
            r is Ok <==> {
                &&& forall|i: int|
                    0 <= i < value.common_prefixes@.len() ==> path_wf(
                        encode_utf8((#[trigger] value.common_prefixes@[i]).prefix@),
                    )
                &&& forall|i: int|
                    0 <= i < value.contents@.len() ==> meta_ok(#[trigger] value.contents@[i])
            },
            r matches Ok(lr) ==> {
                &&& lr.common_prefixes@.len() == value.common_prefixes@.len()
                &&& forall|i: int|
                    0 <= i < value.common_prefixes@.len() ==> (#[trigger] lr.common_prefixes@[i])@
                        == encode_utf8(value.common_prefixes@[i].prefix@)
                &&& lr.objects@.len() == value.contents@.len()
                &&& forall|i: int|
                    0 <= i < value.contents@.len() ==> {
                        &&& (#[trigger] lr.objects@[i]).location@ == encode_utf8(
                            value.contents@[i].key@,
                        )
                        &&& Some(lr.objects@[i].last_modified) == rfc3339_millis(
                            encode_utf8(value.contents@[i].last_modified@),
                        )
                        &&& lr.objects@[i].size == value.contents@[i].size
                        &&& lr.objects@[i].e_tag == value.contents@[i].e_tag
                        &&& lr.objects@[i].version is None
                    }
            },
            r matches Err(e) ==> (e matches Error::InvalidPath { .. } || e matches
                Error::InvalidListResponse { .. }),
    {
        let ghost vcp = value.common_prefixes@;
        let ghost vcs = value.contents@;
        let mut cp = value.common_prefixes;
        let ghost cporig = cp@;
        proof {
            assert(cporig == vcp);
        }
        let total_p = cp.len();
        let mut common_prefixes: Vec<Path> = Vec::new();
        while cp.len() > 0
            invariant
                cporig.len() == total_p,
                cp@ == cporig.skip(cporig.len() - cp@.len()),
                cp@.len() <= cporig.len(),
                common_prefixes@.len() == cporig.len() - cp@.len(),
                forall|i: int|
                    0 <= i < common_prefixes@.len() ==> (#[trigger] common_prefixes@[i])@
                        == encode_utf8(cporig[i].prefix@) && path_wf(encode_utf8(cporig[i].prefix@)),
            decreases cp@.len(),
        {
            let ghost done = cporig.len() - cp@.len();
            let lp = cp.remove(0);
            let ghost pre = common_prefixes@;
            proof {
                assert(lp == cporig[done]);
                assert(cp@ =~= cporig.skip(done + 1));
            }
            match Path::parse(lp.prefix.as_str()) {
                Ok(p) => {
                    proof {
                        assert(p@ == encode_utf8(lp.prefix@));
                    }
                    common_prefixes.push(p);
                    proof {
                        assert forall|i: int| 0 <= i < common_prefixes@.len() implies (
                        #[trigger] common_prefixes@[i])@ == encode_utf8(cporig[i].prefix@)
                            && path_wf(encode_utf8(cporig[i].prefix@)) by {
                            if i < pre.len() {
                                assert(common_prefixes@[i] == pre[i]);
                            } else {
                                assert(common_prefixes@[i] == p);
                            }
                        }
                    }
                },
                Err(e) => {
                    proof {
                        assert(!path_wf(encode_utf8(cporig[done].prefix@)));
                    }
                    return Err(e);
                },
            }
        }
        proof {
            assert(cporig.skip(0) =~= cporig);
        }
        let mut cs = value.contents;
        let ghost csorig = cs@;
        proof {
            assert(csorig == vcs);
        }
        let total_c = cs.len();
        let mut objects: Vec<ObjectMeta> = Vec::new();
        while cs.len() > 0
            invariant
                csorig.len() == total_c,
                cs@ == csorig.skip(csorig.len() - cs@.len()),
                cs@.len() <= csorig.len(),
                objects@.len() == csorig.len() - cs@.len(),
                forall|i: int|
                    0 <= i < objects@.len() ==> {
                        &&& meta_ok(#[trigger] csorig[i])
                        &&& objects@[i].location@ == encode_utf8(csorig[i].key@)
                        &&& Some(objects@[i].last_modified) == rfc3339_millis(
                            encode_utf8(csorig[i].last_modified@),
                        )
                        &&& objects@[i].size == csorig[i].size
                        &&& objects@[i].e_tag == csorig[i].e_tag
                        &&& objects@[i].version is None
                    },
            decreases cs@.len(),
        {
            let ghost done = csorig.len() - cs@.len();
            let c = cs.remove(0);
            proof {
                assert(c == csorig[done]);
                assert(cs@ =~= csorig.skip(done + 1));
            }
            match ObjectMeta::try_from(c) {
                Ok(m) => {
                    objects.push(m);
                },
                Err(e) => {
                    proof {
                        assert(!meta_ok(csorig[done]));
                    }
                    return Err(e);
                },
            }
        }
        proof {
            assert(csorig.skip(0) =~= csorig);
            assert forall|i: int| 0 <= i < value.common_prefixes@.len() implies path_wf(
                encode_utf8((#[trigger] value.common_prefixes@[i]).prefix@),
            ) by {
                assert(common_prefixes@[i]@ == encode_utf8(cporig[i].prefix@));
            }
            assert forall|i: int| 0 <= i < value.contents@.len() implies meta_ok(
                #[trigger] value.contents@[i],
            ) by {
                assert(meta_ok(csorig[i]));
                assert(objects@[i].location@ == encode_utf8(csorig[i].key@));
            }
        }
        Ok(ListResult { common_prefixes, objects })
    }
}

} // verus!
