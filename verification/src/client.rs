//! The object client's request engine: for each S3 API verb it builds the
//! full request — URL, query, headers, body, checksum, signing payload hash —
//! as a [`RequestPlan`], and maps wire responses into domain results or
//! domain errors. Sending, retrying and signing are collaborators' work:
//! they consume the plan.

use vstd::prelude::*;

use crate::checksum::{
    base64_encode, base64_std, spec_checksum_header_name, spec_digest, sha256_of, Checksum,
};
use crate::codec::{encode_path, percent_encode, spec_percent_encode};
use crate::error::{Error, RetryFailure};
use crate::parts::PartId;
use crate::path::{path_wf, Path};
use crate::s3::{
    serialize_bulk_delete, serialize_complete_multipart, spec_complete_doc, spec_delete_doc,
    spec_numbered, wires_view, CompleteMultipartUpload, DeleteError,
};
use vstd::string::StringSliceAdditionalSpecFns;
use vstd::string::StrSliceExecFns;
use vstd::utf8::{encode_utf8, is_ascii_chars, is_ascii_chars_encode_utf8};

verus! {

/// A copy-if-not-exists strategy: the conditional header to attach.
#[derive(Debug)]
pub enum S3CopyIfNotExists {
    Header(Vec<u8>, Vec<u8>),
}

/// Immutable per-client settings, shared read-only by every request.
#[derive(Debug)]
pub struct S3Config {
    pub region: Vec<u8>,
    pub endpoint: Vec<u8>,
    pub bucket: Vec<u8>,
    pub bucket_endpoint: Vec<u8>,
    /// Whether the payload itself must be signed.
    pub sign_payload: bool,
    pub checksum: Option<Checksum>,
    pub copy_if_not_exists: Option<S3CopyIfNotExists>,
}

/// HTTP verbs the client issues.
#[derive(Debug, Clone, Copy, PartialEq, Eq, Structural)]
pub enum HttpMethod {
    Get,
    Head,
    Put,
    Post,
    Delete,
}

/// One fully built request, ready for the signing and transport
/// collaborators: verb, URL, query parameters, headers, optional body, and
/// the payload hash forwarded to the signer when the configured checksum
/// doubles as it.
#[derive(Debug)]
pub struct RequestPlan {
    pub method: HttpMethod,
    pub url: Vec<u8>,
    pub query: Vec<(Vec<u8>, Vec<u8>)>,
    pub headers: Vec<(Vec<u8>, Vec<u8>)>,
    pub body: Option<Vec<u8>>,
    pub payload_sha256: Option<Vec<u8>>,
}

/// The URL addressing one object: bucket endpoint, delimiter, encoded key.
pub open spec fn spec_path_url(c: S3Config, key: Seq<u8>) -> Seq<u8> {
    c.bucket_endpoint@ + seq![47u8] + spec_percent_encode(key, true)
}

impl S3Config {
    /// Renders the URL addressing `path`.
    pub fn path_url(&self, path: &Path) -> (r: Vec<u8>)
        ensures
            r@ == spec_path_url(*self, path@),
    {
        let mut out: Vec<u8> = Vec::new();
        out.extend_from_slice(self.bucket_endpoint.as_slice());
        out.push(47);
        let enc = encode_path(path);
        out.extend_from_slice(enc.as_slice());
        proof {
            assert(out@ =~= spec_path_url(*self, path@));
        }
        out
    }

    /// Builds a GET request for `path`, or a HEAD request when metadata
    /// alone is expected. Conditional and range options are the caller's
    /// extension of the sent request.
    pub fn get_plan(&self, path: &Path, head: bool) -> (r: RequestPlan)
        ensures
            r.method == (if head {
                HttpMethod::Head
            } else {
                HttpMethod::Get
            }),
            r.url@ == spec_path_url(*self, path@),
            r.query@.len() == 0,
            r.headers@.len() == 0,
            r.body is None,
            r.payload_sha256 is None,
    {
        RequestPlan {
            method: if head {
                HttpMethod::Head
            } else {
                HttpMethod::Get
            },
            url: self.path_url(path),
            query: Vec::new(),
            headers: Vec::new(),
            body: None,
            payload_sha256: None,
        }
    }

    /// Builds a DELETE request for `path` with the given query parameters.
    pub fn delete_plan(&self, path: &Path, query: Vec<(Vec<u8>, Vec<u8>)>) -> (r: RequestPlan)
        ensures
            r.method == HttpMethod::Delete,
            r.url@ == spec_path_url(*self, path@),
            r.query == query,
            r.headers@.len() == 0,
            r.body is None,
            r.payload_sha256 is None,
    {
        RequestPlan {
            method: HttpMethod::Delete,
            url: self.path_url(path),
            query,
            headers: Vec::new(),
            body: None,
            payload_sha256: None,
        }
    }

    /// Builds the request initiating a multipart upload session for `path`.
    pub fn create_multipart_plan(&self, path: &Path) -> (r: RequestPlan)
        ensures
            r.method == HttpMethod::Post,
            r.url@ == spec_path_url(*self, path@) + "?uploads=".spec_bytes(),
            r.query@.len() == 0,
            r.headers@.len() == 0,
            r.body is None,
            r.payload_sha256 is None,
    {
        let mut url = self.path_url(path);
        url.extend_from_slice("?uploads=".as_bytes());
        RequestPlan {
            method: HttpMethod::Post,
            url,
            query: Vec::new(),
            headers: Vec::new(),
            body: None,
            payload_sha256: None,
        }
    }

    /// Builds the request completing a multipart upload: `parts` is already
    /// ordered, part numbers are assigned by position, and the upload id
    /// rides as a query parameter.
    pub fn complete_multipart_plan(&self, path: &Path, upload_id: &str, parts: Vec<PartId>) -> (r:
        RequestPlan)
        ensures
            r.method == HttpMethod::Post,
            r.url@ == spec_path_url(*self, path@),
            r.query@.len() == 1 && r.query@[0].0@ == "uploadId".spec_bytes() && r.query@[0].1@
                == encode_utf8(upload_id@),
            r.headers@.len() == 0,
            r.body matches Some(b) && b@ == spec_complete_doc(spec_numbered(parts@)),
            r.payload_sha256 is None,
    {
        let req = CompleteMultipartUpload::from(parts);
        let body = serialize_complete_multipart(&req);
        let mut query: Vec<(Vec<u8>, Vec<u8>)> = Vec::new();
        query.push(("uploadId".as_bytes_vec(), upload_id.as_bytes_vec()));
        RequestPlan {
            method: HttpMethod::Post,
            url: self.path_url(path),
            query,
            headers: Vec::new(),
            body: Some(body),
            payload_sha256: None,
        }
    }

    /// Builds a copy request: PUT at the destination with a copy-source
    /// header naming `bucket/encoded(from)`. Without `overwrite`, a
    /// configured copy-if-not-exists strategy supplies the conditional
    /// header; with none configured the call fails before any request is
    /// built.
    pub fn copy_plan(&self, from: &Path, to: &Path, overwrite: bool) -> (r: Result<
        RequestPlan,
        Error,
    >)
        ensures
            r is Err <==> !overwrite && self.copy_if_not_exists is None,
            r matches Err(e) ==> e matches Error::NotSupported { .. },
            r matches Ok(p) ==> {
                &&& p.method == HttpMethod::Put
                &&& p.url@ == spec_path_url(*self, to@)
                &&& p.query@.len() == 0
                &&& p.headers@.len() >= 1 && p.headers@[0].0@ == "x-amz-copy-source".spec_bytes()
                    && p.headers@[0].1@ == self.bucket@ + seq![47u8] + spec_percent_encode(
                    from@,
                    true,
                )
                &&& (overwrite ==> p.headers@.len() == 1)
                &&& (!overwrite ==> p.headers@.len() == 2 && (self.copy_if_not_exists matches Some(
                    S3CopyIfNotExists::Header(k, v),
                ) && p.headers@[1].0@ == k@ && p.headers@[1].1@ == v@))
                &&& p.body is None
                &&& p.payload_sha256 is None
            },
    {
        let mut source: Vec<u8> = Vec::new();
        source.extend_from_slice(self.bucket.as_slice());
        source.push(47);
        let enc = encode_path(from);
        source.extend_from_slice(enc.as_slice());
        proof {
            assert(source@ =~= self.bucket@ + seq![47u8] + spec_percent_encode(from@, true));
        }
        let mut headers: Vec<(Vec<u8>, Vec<u8>)> = Vec::new();
        headers.push(("x-amz-copy-source".as_bytes_vec(), source));
        if !overwrite {
            match &self.copy_if_not_exists {
                Some(S3CopyIfNotExists::Header(k, v)) => {
                    let hk = vstd::slice::slice_to_vec(k.as_slice());
                    let hv = vstd::slice::slice_to_vec(v.as_slice());
                    headers.push((hk, hv));
                },
                None => {
                    return Err(
                        Error::NotSupported {
                            message: "copy-if-not-exists is not configured".as_bytes_vec(),
                        },
                    );
                },
            }
        }
        Ok(
            RequestPlan {
                method: HttpMethod::Put,
                url: self.path_url(to),
                query: Vec::new(),
                headers,
                body: None,
                payload_sha256: None,
            },
        )
    }

    /// Builds one page of a list request: a GET against the bucket root with
    /// each query parameter present only when the corresponding input is.
    pub fn list_plan(
        &self,
        prefix: Option<Vec<u8>>,
        delimiter: bool,
        token: Option<Vec<u8>>,
        offset: Option<Vec<u8>>,
    ) -> (r: RequestPlan)
        ensures
            r.method == HttpMethod::Get,
            r.url@ == self.bucket_endpoint@,
            pairs_view(r.query@) == spec_list_query(
                match prefix {
                    Some(p) => Some(p@),
                    None => None,
                },
                delimiter,
                match token {
                    Some(t) => Some(t@),
                    None => None,
                },
                match offset {
                    Some(o) => Some(o@),
                    None => None,
                },
            ),
            r.headers@.len() == 0,
            r.body is None,
            r.payload_sha256 is None,
    {
        let ghost gp = match prefix {
            Some(ref p) => Some(p@),
            None => None,
        };
        let ghost gt = match token {
            Some(ref t) => Some(t@),
            None => None,
        };
        let ghost go = match offset {
            Some(ref o) => Some(o@),
            None => None,
        };
        let mut query: Vec<(Vec<u8>, Vec<u8>)> = Vec::new();
        if let Some(t) = token {
            query.push(("continuation-token".as_bytes_vec(), t));
        }
        if delimiter {
            query.push(("delimiter".as_bytes_vec(), "/".as_bytes_vec()));
        }
        query.push(("list-type".as_bytes_vec(), "2".as_bytes_vec()));
        if let Some(p) = prefix {
            query.push(("prefix".as_bytes_vec(), p));
        }
        if let Some(o) = offset {
            query.push(("start-after".as_bytes_vec(), o));
        }
        proof {
            assert(pairs_view(query@) =~= spec_list_query(gp, delimiter, gt, go));
        }
        let url = vstd::slice::slice_to_vec(self.bucket_endpoint.as_slice());
        RequestPlan {
            method: HttpMethod::Get,
            url,
            query,
            headers: Vec::new(),
            body: None,
            payload_sha256: None,
        }
    }
}

/// The views of built query or header pairs.
pub open spec fn pairs_view(s: Seq<(Vec<u8>, Vec<u8>)>) -> Seq<(Seq<u8>, Seq<u8>)> {
    s.map_values(|p: (Vec<u8>, Vec<u8>)| (p.0@, p.1@))
}

/// The query of a list request: `continuation-token`, `delimiter`,
/// `list-type=2`, `prefix` and `start-after`, in that order, each present
/// only when its input is.
pub open spec fn spec_list_query(
    prefix: Option<Seq<u8>>,
    delimiter: bool,
    token: Option<Seq<u8>>,
    offset: Option<Seq<u8>>,
) -> Seq<(Seq<u8>, Seq<u8>)> {
    let q0: Seq<(Seq<u8>, Seq<u8>)> = Seq::empty();
    let q1 = match token {
        Some(t) => q0.push(("continuation-token".spec_bytes(), t)),
        None => q0,
    };
    let q2 = if delimiter {
        q1.push(("delimiter".spec_bytes(), "/".spec_bytes()))
    } else {
        q1
    };
    let q3 = q2.push(("list-type".spec_bytes(), "2".spec_bytes()));
    let q4 = match prefix {
        Some(p) => q3.push(("prefix".spec_bytes(), p)),
        None => q3,
    };
    match offset {
        Some(o) => q4.push(("start-after".spec_bytes(), o)),
        None => q4,
    }
}

/// One tag rendered as `key=value`, each side percent-encoded independently
/// under the strict set (the delimiter is escaped too).
pub open spec fn spec_tag_pair(k: Seq<u8>, v: Seq<u8>) -> Seq<u8> {
    spec_percent_encode(k, false) + seq![61u8] + spec_percent_encode(v, false)
}

/// The tagging-header value: the rendered tags joined with `&`.
pub open spec fn spec_tag_header(tags: Seq<(Seq<u8>, Seq<u8>)>) -> Seq<u8>
    decreases tags.len(),
{
    if tags.len() == 0 {
        Seq::empty()
    } else if tags.len() == 1 {
        spec_tag_pair(tags[0].0, tags[0].1)
    } else {
        spec_tag_pair(tags[0].0, tags[0].1) + seq![38u8] + spec_tag_header(tags.skip(1))
    }
}

/// Joining distributes over appending one tag.
proof fn lemma_tag_push(tags: Seq<(Seq<u8>, Seq<u8>)>, t: (Seq<u8>, Seq<u8>))
    ensures
        spec_tag_header(tags.push(t)) == if tags.len() == 0 {
            spec_tag_pair(t.0, t.1)
        } else {
            spec_tag_header(tags) + seq![38u8] + spec_tag_pair(t.0, t.1)
        },
    decreases tags.len(),
{
    if tags.len() == 0 {
        assert(tags.push(t).len() == 1);
        assert(tags.push(t)[0] == t);
    } else {
        assert(tags.push(t)[0] == tags[0]);
        assert(tags.push(t).skip(1) =~= tags.skip(1).push(t));
        lemma_tag_push(tags.skip(1), t);
        if tags.len() == 1 {
            assert(tags.skip(1).len() == 0);
            assert(spec_tag_header(tags.push(t)) =~= spec_tag_header(tags) + seq![38u8]
                + spec_tag_pair(t.0, t.1));
        } else {
            assert(spec_tag_pair(tags[0].0, tags[0].1) + seq![38u8] + (spec_tag_header(tags.skip(1))
                + seq![38u8] + spec_tag_pair(t.0, t.1)) =~= (spec_tag_pair(tags[0].0, tags[0].1)
                + seq![38u8] + spec_tag_header(tags.skip(1))) + seq![38u8] + spec_tag_pair(
                t.0,
                t.1,
            ));
        }
    }
}

/// Renders the tagging-header value for `tags`.
fn tag_header(tags: &Vec<(Vec<u8>, Vec<u8>)>) -> (r: Vec<u8>)
    ensures
        r@ == spec_tag_header(pairs_view(tags@)),
{
    let mut out: Vec<u8> = Vec::new();
    let mut i: usize = 0;
    proof {
        assert(pairs_view(tags@).take(0) =~= Seq::<(Seq<u8>, Seq<u8>)>::empty());
    }
    while i < tags.len()
        invariant
            i <= tags@.len(),
            out@ == spec_tag_header(pairs_view(tags@).take(i as int)),
        decreases tags@.len() - i,
    {
        if i > 0 {
            out.push(38);
        }
        let ek = percent_encode(&tags[i].0, false);
        out.extend_from_slice(ek.as_slice());
        out.push(61);
        let ev = percent_encode(&tags[i].1, false);
        out.extend_from_slice(ev.as_slice());
        proof {
            let m = pairs_view(tags@);
            lemma_tag_push(m.take(i as int), m[i as int]);
            assert(m.take(i + 1) =~= m.take(i as int).push(m[i as int]));
            assert(m[i as int].0 == tags@[i as int].0@);
            if i == 0 {
                assert(out@ =~= spec_tag_pair(m[i as int].0, m[i as int].1));
            } else {
                assert(out@ =~= spec_tag_header(m.take(i as int)) + seq![38u8] + spec_tag_pair(
                    m[i as int].0,
                    m[i as int].1,
                ));
            }
        }
        i = i + 1;
    }
    proof {
        assert(pairs_view(tags@).take(i as int) =~= pairs_view(tags@));
    }
    out
}

/// The headers of a PUT: the checksum header when an algorithm is
/// configured, an explicit zero content-length for an empty payload, the
/// derived content type when there is one, and the tagging header when tags
/// were supplied, in that order.
pub open spec fn spec_put_headers(
    checksum: Option<Checksum>,
    payload: Seq<u8>,
    content_type: Option<Seq<u8>>,
    tags: Option<Seq<(Seq<u8>, Seq<u8>)>>,
) -> Seq<(Seq<u8>, Seq<u8>)> {
    let h0: Seq<(Seq<u8>, Seq<u8>)> = Seq::empty();
    let h1 = match checksum {
        Some(c) => h0.push((spec_checksum_header_name(c), base64_std(spec_digest(c, payload)))),
        None => h0,
    };
    let h2 = if payload.len() == 0 {
        h1.push(("content-length".spec_bytes(), seq![48u8]))
    } else {
        h1
    };
    let h3 = match content_type {
        Some(ct) => h2.push(("content-type".spec_bytes(), ct)),
        None => h2,
    };
    match tags {
        Some(t) => h3.push(("x-amz-tagging".spec_bytes(), spec_tag_header(t))),
        None => h3,
    }
}

impl S3Config {
    /// Builds a PUT request for `path`. With a checksum algorithm configured,
    /// the digest over the full payload rides as a request header, and — for
    /// the content-hash algorithm only — doubles as the signing payload
    /// hash. An empty payload sets an explicit zero content-length instead
    /// of a body. A derived content type and a tagging header are attached
    /// when supplied.
    pub fn put_plan(
        &self,
        path: &Path,
        bytes: Vec<u8>,
        query: Vec<(Vec<u8>, Vec<u8>)>,
        content_type: Option<Vec<u8>>,
        tags: Option<Vec<(Vec<u8>, Vec<u8>)>>,
    ) -> (r: RequestPlan)
        ensures
            r.method == HttpMethod::Put,
            r.url@ == spec_path_url(*self, path@),
            r.query == query,
            pairs_view(r.headers@) == spec_put_headers(
                self.checksum,
                bytes@,
                match content_type {
                    Some(ct) => Some(ct@),
                    None => None,
                },
                match tags {
                    Some(t) => Some(pairs_view(t@)),
                    None => None,
                },
            ),
            bytes@.len() == 0 ==> r.body is None,
            bytes@.len() > 0 ==> (r.body matches Some(b) && b@ == bytes@),
            (self.checksum == Some(Checksum::Sha256)) ==> (r.payload_sha256 matches Some(d) && d@
                == sha256_of(bytes@)),
            (self.checksum != Some(Checksum::Sha256)) ==> r.payload_sha256 is None,
    {
        let ghost g_ct = match content_type {
            Some(ref ct) => Some(ct@),
            None => None,
        };
        let ghost g_tags = match tags {
            Some(ref t) => Some(pairs_view(t@)),
            None => None,
        };
        let mut headers: Vec<(Vec<u8>, Vec<u8>)> = Vec::new();
        let mut payload_sha256: Option<Vec<u8>> = None;
        if let Some(c) = self.checksum {
            let digest = c.digest(&bytes);
            let b64 = base64_encode(&digest);
            headers.push((vstd::slice::slice_to_vec(c.header_name().as_bytes()), b64));
            if c == Checksum::Sha256 {
                payload_sha256 = Some(digest);
            }
        }
        let body: Option<Vec<u8>> = if bytes.len() == 0 {
            headers.push(("content-length".as_bytes_vec(), "0".as_bytes_vec()));
            proof {
                reveal_strlit("0");
                assert("0"@ =~= seq!['0']);
                assert(is_ascii_chars("0"@));
                is_ascii_chars_encode_utf8("0"@);
                assert(encode_utf8("0"@) =~= seq![48u8]);
            }
            None
        } else {
            Some(bytes)
        };
        if let Some(ct) = content_type {
            headers.push(("content-type".as_bytes_vec(), ct));
        }
        if let Some(t) = tags {
            let tv = tag_header(&t);
            headers.push(("x-amz-tagging".as_bytes_vec(), tv));
        }
        proof {
            assert(pairs_view(headers@) =~= spec_put_headers(self.checksum, bytes@, g_ct, g_tags));
        }
        RequestPlan {
            method: HttpMethod::Put,
            url: self.path_url(path),
            query,
            headers,
            body,
            payload_sha256,
        }
    }

    /// Builds the batch-delete request for `paths`, or nothing when `paths`
    /// is empty: an empty bulk delete sends no request and its outcome
    /// vector is empty. The body serializes every path; the server requires
    /// an integrity header for this API unconditionally, so the content-hash
    /// algorithm stands in when none is configured.
    pub fn bulk_delete_plan(&self, paths: &Vec<Path>) -> (r: Option<RequestPlan>)
        ensures
            r is Some <==> paths@.len() > 0,
            r matches Some(p) ==> {
                let doc = spec_delete_doc(paths@.map_values(|q: Path| q@));
                let c = match self.checksum {
                    Some(c) => c,
                    None => Checksum::Sha256,
                };
                &&& p.method == HttpMethod::Post
                &&& p.url@ == self.bucket_endpoint@ + "?delete".spec_bytes()
                &&& p.query@.len() == 0
                &&& pairs_view(p.headers@) == seq![
                    (spec_checksum_header_name(c), base64_std(spec_digest(c, doc))),
                    ("content-type".spec_bytes(), "application/xml".spec_bytes()),
                ]
                &&& (p.body matches Some(b) && b@ == doc)
                &&& (c == Checksum::Sha256 ==> (p.payload_sha256 matches Some(d) && d@
                    == sha256_of(doc)))
                &&& (c != Checksum::Sha256 ==> p.payload_sha256 is None)
            },
    {
        if paths.len() == 0 {
            return None;
        }
        let body = serialize_bulk_delete(paths);
        let c = match self.checksum {
            Some(c) => c,
            None => Checksum::Sha256,
        };
        let digest = c.digest(&body);
        let b64 = base64_encode(&digest);
        let mut headers: Vec<(Vec<u8>, Vec<u8>)> = Vec::new();
        headers.push((vstd::slice::slice_to_vec(c.header_name().as_bytes()), b64));
        headers.push(("content-type".as_bytes_vec(), "application/xml".as_bytes_vec()));
        let payload_sha256: Option<Vec<u8>> = if c == Checksum::Sha256 {
            Some(digest)
        } else {
            None
        };
        let mut url: Vec<u8> = Vec::new();
        url.extend_from_slice(self.bucket_endpoint.as_slice());
        url.extend_from_slice("?delete".as_bytes());
        proof {
            let doc = spec_delete_doc(paths@.map_values(|q: Path| q@));
            assert(pairs_view(headers@) =~= seq![
                (spec_checksum_header_name(c), base64_std(spec_digest(c, doc))),
                ("content-type".spec_bytes(), "application/xml".spec_bytes()),
            ]);
        }
        Some(
            RequestPlan {
                method: HttpMethod::Post,
                url,
                query: Vec::new(),
                headers,
                body: Some(body),
                payload_sha256,
            },
        )
    }
}

/// Classifies the transport's terminal failure on a copy: a
/// precondition-failed response is reinterpreted as already-exists at the
/// destination; anything else is a copy failure carrying the source path.
pub fn classify_copy_failure(from: &Path, to: &Path, source: RetryFailure) -> (r: Error)
    ensures
        source.status == Some(412u16) ==> (r matches Error::AlreadyExists { path } && path@
            == to@),
        source.status != Some(412u16) ==> (r matches Error::CopyRequest { path, source: s } && path@
            == from@ && s == source),
{
    let is_precondition = match source.status {
        Some(code) => code == 412,
        None => false,
    };
    if is_precondition {
        Error::AlreadyExists { path: vstd::slice::slice_to_vec(to.as_bytes().as_slice()) }
    } else {
        Error::CopyRequest { path: vstd::slice::slice_to_vec(from.as_bytes().as_slice()), source }
    }
}

/// The keys of the input paths.
pub open spec fn paths_view(s: Seq<Path>) -> Seq<Seq<u8>> {
    s.map_values(|p: Path| p@)
}

/// First index in `paths` holding `key`, or -1 if no path holds it.
pub open spec fn spec_index_of(paths: Seq<Seq<u8>>, key: Seq<u8>) -> int
    decreases paths.len(),
{
    if paths.len() == 0 {
        -1
    } else if paths[0] == key {
        0
    } else {
        let r = spec_index_of(paths.skip(1), key);
        if r < 0 {
            -1
        } else {
            r + 1
        }
    }
}

/// `spec_index_of` finds the first occurrence.
pub proof fn lemma_index_of_found(paths: Seq<Seq<u8>>, key: Seq<u8>, j: int)
    requires
        0 <= j < paths.len(),
        paths[j] == key,
        forall|k: int| 0 <= k < j ==> paths[k] != key,
    ensures
        spec_index_of(paths, key) == j,
    decreases paths.len(),
{
    if j > 0 {
        assert(paths.skip(1)[j - 1] == paths[j]);
        assert forall|k: int| 0 <= k < j - 1 implies paths.skip(1)[k] != key by {
            assert(paths.skip(1)[k] == paths[k + 1]);
        }
        lemma_index_of_found(paths.skip(1), key, j - 1);
    }
}

/// `spec_index_of` reports absence.
pub proof fn lemma_index_of_absent(paths: Seq<Seq<u8>>, key: Seq<u8>)
    requires
        forall|k: int| 0 <= k < paths.len() ==> paths[k] != key,
    ensures
        spec_index_of(paths, key) == -1,
    decreases paths.len(),
{
    if paths.len() > 0 {
        assert forall|k: int| 0 <= k < paths.skip(1).len() implies paths.skip(1)[k] != key by {
            assert(paths.skip(1)[k] == paths[k + 1]);
        }
        lemma_index_of_absent(paths.skip(1), key);
    }
}

/// Where `spec_index_of` answers, it answers with the first occurrence.
pub proof fn lemma_index_of(paths: Seq<Seq<u8>>, key: Seq<u8>)
    ensures
        spec_index_of(paths, key) >= 0 ==> {
            let r = spec_index_of(paths, key);
            &&& r < paths.len()
            &&& paths[r] == key
        },
    decreases paths.len(),
{
    if paths.len() > 0 && paths[0] != key {
        lemma_index_of(paths.skip(1), key);
        let r = spec_index_of(paths.skip(1), key);
        if r >= 0 {
            assert(paths[r + 1] == paths.skip(1)[r]);
        }
    }
}

/// One reported failure folded into the outcome model: its key must satisfy
/// the path rules, and the failure lands in the slot of the first input path
/// equal to that key.
pub open spec fn spec_apply_item(
    out: Seq<Option<(Seq<u8>, Seq<u8>, Seq<u8>)>>,
    paths: Seq<Seq<u8>>,
    it: (Seq<u8>, Seq<u8>, Seq<u8>),
) -> Option<Seq<Option<(Seq<u8>, Seq<u8>, Seq<u8>)>>> {
    if !path_wf(it.0) {
        None
    } else {
        let i = spec_index_of(paths, it.0);
        if i < 0 {
            Some(out)
        } else {
            Some(out.update(i, Some(it)))
        }
    }
}

/// The outcome model of a bulk delete: one slot per input path, all seeded
/// as successes (`None`), then every reported failure folded in, in response
/// order; `None` overall where a reported key breaks the path rules.
pub open spec fn spec_reconcile(
    paths: Seq<Seq<u8>>,
    items: Seq<(Seq<u8>, Seq<u8>, Seq<u8>)>,
) -> Option<Seq<Option<(Seq<u8>, Seq<u8>, Seq<u8>)>>>
    decreases items.len(),
{
    if items.len() == 0 {
        Some(Seq::new(paths.len(), |i: int| None))
    } else {
        match spec_reconcile(paths, items.drop_last()) {
            None => None,
            Some(o) => spec_apply_item(o, paths, items.last()),
        }
    }
}

/// One outcome slot against its model: a success returns the input path; a
/// failure carries the reported key, code and message.
pub open spec fn outcome_matches(
    res: Result<Path, Error>,
    model: Option<(Seq<u8>, Seq<u8>, Seq<u8>)>,
    path: Seq<u8>,
) -> bool {
    match model {
        None => res matches Ok(p) && p@ == path,
        Some(f) => res matches Err(e) && (e matches Error::DeleteFailed { path: ep, code, message }
            && ep@ == f.0 && code@ == f.1 && message@ == f.2),
    }
}

/// Reconciles a batch delete: seeds one success per input path, then
/// overwrites, for every failure the response reports, the slot of the input
/// path carrying the reported key. Output order equals input order whatever
/// the response's order or omissions; keys the response never mentions stay
/// successes. A reported key that breaks the path rules fails the whole
/// call; per the precondition, a reported well-formed key always names an
/// input path.
#[verifier::loop_isolation(false)]
pub fn reconcile_bulk_delete(paths: &Vec<Path>, items: Vec<DeleteError>) -> (r: Result<
    Vec<Result<Path, Error>>,
    Error,
>)
    requires
        forall|i: int|
            0 <= i < items@.len() ==> (path_wf((#[trigger] items@[i]).key@) ==> spec_index_of(
                paths_view(paths@),
                items@[i].key@,
            ) >= 0),
    ensures
        r is Ok <==> spec_reconcile(paths_view(paths@), wires_view(items@)) is Some,
        r matches Ok(out) ==> (spec_reconcile(paths_view(paths@), wires_view(items@)) matches Some(
            o,
        ) && out@.len() == o.len() && o.len() == paths@.len() && (forall|i: int|
            0 <= i < o.len() ==> outcome_matches(#[trigger] out@[i], o[i], paths_view(paths@)[i]))),
        r matches Err(e) ==> e matches Error::InvalidDeleteObjectsResponse { .. },
{
    let ghost pv = paths_view(paths@);
    let ghost iv = wires_view(items@);
    let mut results: Vec<Result<Path, Error>> = Vec::new();
    let mut i: usize = 0;
    while i < paths.len()
        invariant
            i <= paths@.len(),
            results@.len() == i,
            forall|k: int|
                0 <= k < i ==> ((#[trigger] results@[k]) matches Ok(p) && p@ == paths_view(
                    paths@,
                )[k]),
        decreases paths@.len() - i,
    {
        results.push(Ok(paths[i].clone()));
        i = i + 1;
    }
    let ghost m0 = Seq::new(pv.len(), |k: int| None::<(Seq<u8>, Seq<u8>, Seq<u8>)>);
    proof {
        assert(iv.take(0) =~= Seq::<(Seq<u8>, Seq<u8>, Seq<u8>)>::empty());
        assert(spec_reconcile(pv, iv.take(0)) == Some(m0));
    }
    let ghost mut m = m0;
    let mut items = items;
    let total = items.len();
    let ghost iorig = items@;
    while items.len() > 0
        invariant
            iorig.len() == total,
            iv == wires_view(iorig),
            pv == paths_view(paths@),
            items@ == iorig.skip(iorig.len() - items@.len()),
            items@.len() <= iorig.len(),
            spec_reconcile(pv, iv.take(iorig.len() - items@.len())) == Some(m),
            results@.len() == m.len(),
            m.len() == pv.len(),
            forall|k: int|
                0 <= k < m.len() ==> outcome_matches(#[trigger] results@[k], m[k], pv[k]),
            forall|k: int|
                0 <= k < iorig.len() ==> (path_wf((#[trigger] iorig[k]).key@) ==> spec_index_of(
                    pv,
                    iorig[k].key@,
                ) >= 0),
        decreases items@.len(),
    {
        let ghost done = iorig.len() - items@.len();
        let it = items.remove(0);
        proof {
            assert(it == iorig[done]);
            assert(items@ =~= iorig.skip(done + 1));
            assert(iv.take(done + 1).drop_last() =~= iv.take(done));
            assert(iv.take(done + 1).last() == iv[done]);
            assert(iv[done] == (it.key@, it.code@, it.message@));
        }
        let kb = vstd::slice::slice_to_vec(it.key.as_slice());
        let parsed = match Path::parse_bytes(kb) {
            Ok(p) => p,
            Err(_) => {
                proof {
                    assert(spec_reconcile(pv, iv.take(done + 1)) is None);
                    lemma_reconcile_none_stays(pv, iv, done + 1);
                }
                return Err(
                    Error::InvalidDeleteObjectsResponse {
                        message: "delete error names an invalid key".as_bytes_vec(),
                    },
                );
            },
        };
        let mut found: Option<usize> = None;
        let mut j: usize = 0;
        while j < paths.len()
            invariant
                j <= paths@.len(),
                pv == paths_view(paths@),
                parsed@ == iorig[done as int].key@,
                found matches Some(f) ==> 0 <= f < paths@.len() && pv[f as int] == parsed@ && (
                forall|k: int| 0 <= k < f ==> pv[k] != parsed@),
                found is None ==> forall|k: int| 0 <= k < j ==> pv[k] != parsed@,
            decreases paths@.len() - j,
        {
            if found.is_none() {
                proof {
                    assert(pv[j as int] == paths@[j as int]@);
                }
                if paths[j].eq(&parsed) {
                    found = Some(j);
                }
            }
            j = j + 1;
        }
        let idx = match found {
            Some(f) => f,
            None => {
                proof {
                    lemma_index_of_absent(pv, parsed@);
                    assert(path_wf(iorig[done as int].key@));
                    assert(false);
                }
                vstd::pervasive::unreached()
            },
        };
        proof {
            lemma_index_of_found(pv, parsed@, idx as int);
        }
        let fail = Error::DeleteFailed { path: it.key, code: it.code, message: it.message };
        let ghost pre = results@;
        let _ = results.remove(idx);
        results.insert(idx, Err(fail));
        proof {
            assert(results@ =~= pre.update(idx as int, results@[idx as int]));
            m = m.update(idx as int, Some(iv[done]));
            assert(spec_apply_item(spec_reconcile(pv, iv.take(done))->Some_0, pv, iv[done])
                == Some(m));
            assert(spec_reconcile(pv, iv.take(done + 1)) == Some(m));
            assert forall|k: int| 0 <= k < m.len() implies outcome_matches(
                #[trigger] results@[k],
                m[k],
                pv[k],
            ) by {
                if k != idx {
                    assert(results@[k] == pre[k]);
                }
            }
        }
    }
    proof {
        assert(iv.take(iorig.len() as int) =~= iv);
    }
    Ok(results)
}

/// Order preservation: for any list of distinct paths submitted to bulk
/// delete, the outcome model has one slot per input, and slot `i` reports on
/// input path `i` alone — a success, or a failure whose key is that very
/// path — regardless of the response's internal ordering or omissions.
pub proof fn lemma_bulk_delete_order_preserved(
    paths: Seq<Seq<u8>>,
    items: Seq<(Seq<u8>, Seq<u8>, Seq<u8>)>,
)
    requires
        forall|i: int, j: int| 0 <= i < j < paths.len() ==> paths[i] != paths[j],
        spec_reconcile(paths, items) is Some,
    ensures
        spec_reconcile(paths, items)->Some_0.len() == paths.len(),
        forall|i: int|
            0 <= i < paths.len() ==> ((#[trigger] spec_reconcile(paths, items)->Some_0[i]) matches
                Some(f) ==> f.0 == paths[i]),
    decreases items.len(),
{
    if items.len() == 0 {
    } else {
        lemma_bulk_delete_order_preserved(paths, items.drop_last());
        let o = spec_reconcile(paths, items.drop_last())->Some_0;
        let it = items.last();
        lemma_index_of(paths, it.0);
        let ix = spec_index_of(paths, it.0);
        if ix >= 0 {
            assert(paths[ix] == it.0);
            assert forall|i: int| 0 <= i < paths.len() implies ((
            #[trigger] spec_reconcile(paths, items)->Some_0[i]) matches Some(f) ==> f.0
                == paths[i]) by {
                if i != ix {
                    assert(o.update(ix, Some(it))[i] == o[i]);
                }
            }
        }
    }
}

/// Error substitution: if the server reports exactly one failure, for a
/// well-formed key equal to input path `j` of a distinct input list, then
/// the outcome model fails at `j`, with that failure, and succeeds at every
/// other slot.
pub proof fn lemma_bulk_delete_single_error(
    paths: Seq<Seq<u8>>,
    item: (Seq<u8>, Seq<u8>, Seq<u8>),
    j: int,
)
    requires
        forall|i: int, k: int| 0 <= i < k < paths.len() ==> paths[i] != paths[k],
        path_wf(item.0),
        0 <= j < paths.len(),
        paths[j] == item.0,
    ensures
        spec_reconcile(paths, seq![item]) matches Some(o) && o.len() == paths.len() && o[j] == Some(
            item,
        ) && (forall|i: int| 0 <= i < paths.len() && i != j ==> o[i] is None),
{
    let items = seq![item];
    assert(items.len() == 1);
    assert(items.last() == item);
    assert(items.drop_last() =~= Seq::<(Seq<u8>, Seq<u8>, Seq<u8>)>::empty());
    let m0 = Seq::new(paths.len(), |k: int| None::<(Seq<u8>, Seq<u8>, Seq<u8>)>);
    assert(spec_reconcile(paths, items.drop_last()) == Some(m0));
    assert forall|k: int| 0 <= k < j implies paths[k] != item.0 by {
        assert(paths[k] != paths[j]);
    }
    lemma_index_of_found(paths, item.0, j);
    let o = m0.update(j, Some(item));
    assert(spec_reconcile(paths, items) == Some(o));
    assert forall|i: int| 0 <= i < paths.len() && i != j implies o[i] is None by {
        assert(o[i] == m0[i]);
    }
}

/// Once the fold of reported failures rejects, it stays rejected.
proof fn lemma_reconcile_none_stays(
    paths: Seq<Seq<u8>>,
    items: Seq<(Seq<u8>, Seq<u8>, Seq<u8>)>,
    k: int,
)
    requires
        0 <= k <= items.len(),
        spec_reconcile(paths, items.take(k)) is None,
    ensures
        spec_reconcile(paths, items) is None,
    decreases items.len() - k,
{
    if k < items.len() {
        assert(items.take(k + 1).drop_last() =~= items.take(k));
        lemma_reconcile_none_stays(paths, items, k + 1);
    } else {
        assert(items.take(k) =~= items);
    }
}

} // verus!
