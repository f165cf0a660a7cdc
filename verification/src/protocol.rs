//! The plugin wire protocol. A message travels as one binary frame: a tag
//! byte naming the request or response kind, a little-endian count of
//! fields, and each field as a little-endian length followed by its
//! bytes. The protocol is a closed set of tagged frames matched by an
//! explicit dispatch table, not an in-process trait: the plugin boundary
//! is a process boundary.

use vstd::prelude::*;

use vstd::bytes::{
    lemma_auto_spec_u32_to_from_le_bytes, lemma_auto_spec_u64_to_from_le_bytes,
    spec_u32_from_le_bytes, spec_u32_to_le_bytes, spec_u64_to_le_bytes, u32_from_le_bytes,
    u32_to_le_bytes, u64_from_le_bytes,
};
use vstd::slice::slice_subrange;
use vstd::string::StrSliceExecFns;
use vstd::utf8::{encode_utf8, valid_utf8};

use crate::HostError;
use crate::candidate::Candidate;

verus! {

/// One encoded field: its length, then its bytes.
pub open spec fn encode_field(f: Seq<u8>) -> Seq<u8> {
    spec_u32_to_le_bytes(f.len() as u32) + f
}

/// The fields of a frame, encoded in order.
pub open spec fn encode_fields(fs: Seq<Seq<u8>>) -> Seq<u8>
    decreases fs.len(),
{
    if fs.len() == 0 {
        Seq::empty()
    } else {
        encode_field(fs[0]) + encode_fields(fs.drop_first())
    }
}

/// A whole frame: tag byte, field count, fields.
pub open spec fn spec_encode_frame(tag: u8, fs: Seq<Seq<u8>>) -> Seq<u8> {
    seq![tag] + spec_u32_to_le_bytes(fs.len() as u32) + encode_fields(fs)
}

/// Every field short enough for its length prefix, and few enough fields
/// for the count prefix.
pub open spec fn fields_fit(fs: Seq<Seq<u8>>) -> bool {
    &&& fs.len() < 0x1_0000_0000
    &&& forall|k: int| 0 <= k < fs.len() ==> (#[trigger] fs[k]).len() < 0x1_0000_0000
}

/// Parses `n` fields of `bytes` starting at `off`: the fields and the
/// offset after them, or nothing where the bytes run out.
pub open spec fn parse_fields(bytes: Seq<u8>, off: int, n: int) -> Option<(Seq<Seq<u8>>, int)>
    decreases n,
{
    if n <= 0 {
        Some((Seq::empty(), off))
    } else if off + 4 > bytes.len() {
        None
    } else {
        let len = spec_u32_from_le_bytes(bytes.subrange(off, off + 4)) as int;
        if off + 4 + len > bytes.len() {
            None
        } else {
            match parse_fields(bytes, off + 4 + len, n - 1) {
                Some(rest) => Some(
                    (seq![bytes.subrange(off + 4, off + 4 + len)] + rest.0, rest.1),
                ),
                None => None,
            }
        }
    }
}

/// Parses a whole frame: its tag and fields, provided the bytes hold
/// exactly one well-formed frame and nothing more.
pub open spec fn spec_parse_frame(bytes: Seq<u8>) -> Option<(u8, Seq<Seq<u8>>)> {
    if bytes.len() < 5 {
        None
    } else {
        let tag = bytes[0];
        let n = spec_u32_from_le_bytes(bytes.subrange(1, 5)) as int;
        match parse_fields(bytes, 5, n) {
            Some(parsed) => if parsed.1 == bytes.len() {
                Some((tag, parsed.0))
            } else {
                None
            },
            None => None,
        }
    }
}

/// Encoding one more field appends its encoding.
pub proof fn lemma_encode_fields_snoc(fs: Seq<Seq<u8>>, f: Seq<u8>)
    ensures
        encode_fields(fs.push(f)) == encode_fields(fs) + encode_field(f),
    decreases fs.len(),
{
    let s = fs.push(f);
    if fs.len() == 0 {
        assert(s[0] == f);
        assert(s.drop_first() =~= Seq::<Seq<u8>>::empty());
        assert(encode_fields(s) == encode_field(f) + encode_fields(s.drop_first()));
        assert(encode_fields(Seq::<Seq<u8>>::empty()) == Seq::<u8>::empty());
        assert(encode_field(f) + Seq::<u8>::empty() =~= encode_field(f));
        assert(Seq::<u8>::empty() + encode_field(f) =~= encode_field(f));
    } else {
        assert(s[0] == fs[0]);
        assert(s.drop_first() =~= fs.drop_first().push(f));
        lemma_encode_fields_snoc(fs.drop_first(), f);
        assert(encode_field(fs[0]) + (encode_fields(fs.drop_first()) + encode_field(f)) =~= (
        encode_field(fs[0]) + encode_fields(fs.drop_first())) + encode_field(f));
    }
}

/// Parsing what `encode_fields` produced gives the fields back and lands
/// exactly at the end of the encoding.
pub proof fn lemma_parse_encoded_fields(bytes: Seq<u8>, off: int, fs: Seq<Seq<u8>>)
    requires
        0 <= off <= bytes.len(),
        bytes.subrange(off, bytes.len() as int) == encode_fields(fs),
        fields_fit(fs),
    ensures
        parse_fields(bytes, off, fs.len() as int) == Some((fs, bytes.len() as int)),
    decreases fs.len(),
{
    lemma_auto_spec_u32_to_from_le_bytes();
    let tail = bytes.subrange(off, bytes.len() as int);
    if fs.len() == 0 {
        assert(tail.len() == 0);
    } else {
        let f = fs[0];
        let enc = encode_field(f) + encode_fields(fs.drop_first());
        assert(tail == enc);
        assert(encode_field(f).len() == 4 + f.len());
        assert(bytes.len() - off == enc.len());
        assert(enc.len() >= 4 + f.len());
        assert(bytes.subrange(off, off + 4) =~= spec_u32_to_le_bytes(f.len() as u32)) by {
            assert(forall|i: int|
                0 <= i < 4 ==> bytes.subrange(off, off + 4)[i] == #[trigger] tail[i]);
            assert(forall|i: int|
                0 <= i < 4 ==> tail[i] == spec_u32_to_le_bytes(f.len() as u32)[i]);
        }
        let len = spec_u32_from_le_bytes(bytes.subrange(off, off + 4)) as int;
        assert(len == f.len());
        assert(bytes.subrange(off + 4, off + 4 + len) =~= f) by {
            assert(forall|i: int|
                0 <= i < len ==> bytes.subrange(off + 4, off + 4 + len)[i] == #[trigger] tail[4
                    + i]);
            assert(forall|i: int| 0 <= i < len ==> tail[4 + i] == f[i]);
        }
        assert(bytes.subrange(off + 4 + len, bytes.len() as int) =~= encode_fields(
            fs.drop_first(),
        )) by {
            assert(forall|i: int|
                0 <= i < bytes.len() - off - 4 - len ==> bytes.subrange(
                    off + 4 + len,
                    bytes.len() as int,
                )[i] == #[trigger] tail[4 + len + i]);
            assert(forall|i: int|
                0 <= i < enc.len() - 4 - len ==> tail[4 + len + i] == encode_fields(
                    fs.drop_first(),
                )[i]);
        }
        assert(forall|k: int|
            0 <= k < fs.drop_first().len() ==> (#[trigger] fs.drop_first()[k]) == fs[k + 1]);
        lemma_parse_encoded_fields(bytes, off + 4 + len, fs.drop_first());
        assert(seq![f] + fs.drop_first() =~= fs);
    }
}

/// The frame round trip: a frame whose fields fit always parses back to
/// exactly its tag and fields.
pub proof fn lemma_frame_round_trip(tag: u8, fs: Seq<Seq<u8>>)
    requires
        fields_fit(fs),
    ensures
        spec_parse_frame(spec_encode_frame(tag, fs)) == Some((tag, fs)),
{
    lemma_auto_spec_u32_to_from_le_bytes();
    let bytes = spec_encode_frame(tag, fs);
    assert(bytes.len() >= 5);
    assert(bytes[0] == tag);
    assert(bytes.subrange(1, 5) =~= spec_u32_to_le_bytes(fs.len() as u32));
    assert(bytes.subrange(5, bytes.len() as int) =~= encode_fields(fs));
    lemma_parse_encoded_fields(bytes, 5, fs);
}

/// When `k + m` fields parse, the first `k` parse and the remaining `m`
/// parse from where they end, and the results agree.
pub proof fn lemma_parse_fields_split(bytes: Seq<u8>, off: int, k: int, m: int)
    requires
        k >= 0,
        m >= 0,
    ensures
        parse_fields(bytes, off, k + m) == match parse_fields(bytes, off, k) {
            Some(first) => match parse_fields(bytes, first.1, m) {
                Some(second) => Some((first.0 + second.0, second.1)),
                None => None,
            },
            None => None,
        },
    decreases k,
{
    if k == 0 {
        match parse_fields(bytes, off, m) {
            Some(second) => {
                assert(Seq::<Seq<u8>>::empty() + second.0 =~= second.0);
            },
            None => {},
        }
    } else if off + 4 > bytes.len() {
    } else {
        let len = spec_u32_from_le_bytes(bytes.subrange(off, off + 4)) as int;
        if off + 4 + len <= bytes.len() {
            lemma_parse_fields_split(bytes, off + 4 + len, k - 1, m);
            let head = seq![bytes.subrange(off + 4, off + 4 + len)];
            match parse_fields(bytes, off + 4 + len, k - 1) {
                Some(first_rest) => {
                    match parse_fields(bytes, first_rest.1, m) {
                        Some(second) => {
                            assert(head + (first_rest.0 + second.0) =~= (head + first_rest.0)
                                + second.0);
                        },
                        None => {},
                    }
                },
                None => {},
            }
        }
    }
}

/// Encodes one frame for the wire.
pub fn encode_frame(tag: u8, fields: &Vec<Vec<u8>>) -> (out: Vec<u8>)
    requires
        fields.deep_view().len() < 0x1_0000_0000,
        forall|k: int|
            0 <= k < fields@.len() ==> (#[trigger] fields@[k])@.len() < 0x1_0000_0000,
    ensures
        out@ == spec_encode_frame(tag, fields.deep_view()),
{
    let ghost all = fields.deep_view();
    let mut out: Vec<u8> = Vec::new();
    out.push(tag);
    let mut count_bytes = u32_to_le_bytes(fields.len() as u32);
    out.append(&mut count_bytes);
    proof {
        assert(fields.deep_view().len() == fields@.len());
        assert(out@ =~= seq![tag] + spec_u32_to_le_bytes(all.len() as u32));
        assert(encode_fields(all.take(0)) =~= Seq::<u8>::empty());
        assert(out@ + Seq::<u8>::empty() =~= out@);
    }
    let n = fields.len();
    let mut i: usize = 0;
    while i < n
        invariant
            0 <= i <= n,
            n == fields@.len(),
            all == fields.deep_view(),
            all.len() == n,
            forall|k: int| 0 <= k < n ==> (#[trigger] all[k]).len() < 0x1_0000_0000,
            forall|k: int| 0 <= k < n ==> (#[trigger] fields@[k])@ == all[k],
            out@ == seq![tag] + spec_u32_to_le_bytes(all.len() as u32) + encode_fields(
                all.take(i as int),
            ),
        decreases n - i,
    {
        let ghost before = out@;
        let field = &fields[i];
        let mut len_bytes = u32_to_le_bytes(field.len() as u32);
        out.append(&mut len_bytes);
        out.extend_from_slice(field.as_slice());
        proof {
            lemma_encode_fields_snoc(all.take(i as int), all[i as int]);
            assert(all.take(i + 1) =~= all.take(i as int).push(all[i as int]));
            assert(out@ =~= before + spec_u32_to_le_bytes(all[i as int].len() as u32) + all[i
                as int]);
            assert(out@ =~= seq![tag] + spec_u32_to_le_bytes(all.len() as u32) + encode_fields(
                all.take(i + 1),
            ));
        }
        i = i + 1;
    }
    proof {
        assert(all.take(n as int) =~= all);
    }
    out
}

/// Decodes one frame, or the transport error where the bytes are not
/// exactly one well-formed frame.
pub fn decode_frame(bytes: &Vec<u8>) -> (r: Result<(u8, Vec<Vec<u8>>), HostError>)
    ensures
        match r {
            Ok(f) => spec_parse_frame(bytes@) == Some((f.0, f.1.deep_view())),
            Err(e) => e == HostError::Transport && spec_parse_frame(bytes@) is None,
        },
{
    proof {
        lemma_auto_spec_u32_to_from_le_bytes();
    }
    if bytes.len() < 5 {
        return Err(HostError::Transport);
    }
    let tag = bytes[0];
    let count_slice = slice_subrange(bytes.as_slice(), 1, 5);
    let n = u32_from_le_bytes(count_slice);
    let ghost total: int = n as int;
    let mut fields: Vec<Vec<u8>> = Vec::new();
    let mut off: usize = 5;
    let mut k: u32 = 0;
    proof {
        assert(parse_fields(bytes@, 5, 0) == Some((Seq::<Seq<u8>>::empty(), 5int)));
        assert(fields.deep_view() =~~= Seq::<Seq<u8>>::empty());
    }
    while k < n
        invariant
            0 <= k <= n,
            5 <= off <= bytes@.len(),
            total == n as int,
            total == spec_u32_from_le_bytes(bytes@.subrange(1, 5)) as int,
            parse_fields(bytes@, 5, k as int) == Some((fields.deep_view(), off as int)),
        decreases n - k,
    {
        proof {
            lemma_auto_spec_u32_to_from_le_bytes();
            lemma_parse_fields_split(bytes@, 5, k as int, total - k);
        }
        if bytes.len() - off < 4 {
            proof {
                assert(parse_fields(bytes@, off as int, total - k) is None);
            }
            return Err(HostError::Transport);
        }
        let len_slice = slice_subrange(bytes.as_slice(), off, off + 4);
        let len = u32_from_le_bytes(len_slice) as usize;
        proof {
            assert(bytes@.subrange(off as int, off + 4) == len_slice@);
        }
        if len > bytes.len() - off - 4 {
            proof {
                assert(parse_fields(bytes@, off as int, total - k) is None);
            }
            return Err(HostError::Transport);
        }
        let field_slice = slice_subrange(bytes.as_slice(), off + 4, off + 4 + len);
        let field = vstd::slice::slice_to_vec(field_slice);
        let ghost prev = fields.deep_view();
        proof {
            assert(field@ == bytes@.subrange(off + 4, off + 4 + len as int));
        }
        fields.push(field);
        proof {
            assert(fields.deep_view() =~~= prev.push(
                bytes@.subrange(off + 4, off + 4 + len as int),
            ));
            lemma_parse_fields_split(bytes@, 5, k as int, 1);
            assert(seq![bytes@.subrange(off + 4, off + 4 + len as int)]
                + Seq::<Seq<u8>>::empty() =~= seq![
                bytes@.subrange(off + 4, off + 4 + len as int),
            ]);
            assert(parse_fields(bytes@, off + 4 + len as int, 0) == Some(
                (Seq::<Seq<u8>>::empty(), off + 4 + len as int),
            ));
            assert(parse_fields(bytes@, off as int, 1) == Some(
                (
                    seq![bytes@.subrange(off + 4, off + 4 + len as int)],
                    off + 4 + len as int,
                ),
            ));
            assert(prev + seq![bytes@.subrange(off + 4, off + 4 + len as int)] =~= fields
                .deep_view());
        }
        off = off + 4 + len;
        k = k + 1;
    }
    if off != bytes.len() {
        return Err(HostError::Transport);
    }
    Ok((tag, fields))
}

/// The request tags of the protocol's closed vocabulary.
pub const TAG_INTERFACE_VERSION: u8 = 0;

pub const TAG_GET_NAME: u8 = 1;

pub const TAG_GET_ASSETS: u8 = 2;

pub const TAG_INSPECT_INSTANCE: u8 = 3;

pub const TAG_REGISTER_INSTANCE: u8 = 4;

pub const TAG_DEREGISTER_INSTANCE: u8 = 5;

pub const TAG_GET_WALLPAPERS: u8 = 6;

pub const TAG_GET_INSTANCES: u8 = 7;

/// The tag a plugin answers with when a request failed on its side.
pub const TAG_FAILURE: u8 = 8;

/// One request to a source plugin.
#[derive(Debug)]
pub enum PluginRequest {
    /// Which protocol revision the plugin speaks.
    InterfaceVersion,
    /// The plugin's display name.
    GetName,
    /// The plugin's bundled UI assets.
    GetAssets,
    /// The parameters of a registered instance.
    InspectInstance { instance: String },
    /// Create or overwrite an instance with these parameters.
    RegisterInstance { instance: String, params: Vec<u8> },
    /// Remove an instance.
    DeregisterInstance { instance: String },
    /// Wallpapers for an instance, skipping ids the host already holds.
    GetWallpapers { instance: String, known_ids: Vec<String> },
    /// The ids of every registered instance.
    GetInstances,
}

/// One response from a source plugin.
#[derive(Debug, PartialEq)]
pub enum PluginResponse {
    InterfaceVersion { version: String },
    GetName { name: String },
    GetAssets { assets: Vec<(String, Vec<u8>)> },
    InspectInstance { params: Vec<u8> },
    RegisterInstance { overwrote: bool },
    DeregisterInstance,
    GetWallpapers { wallpapers: Vec<Candidate> },
    GetInstances { instances: Vec<String> },
    /// The plugin reports a failure of its own.
    Failure { message: String },
}

/// The tag a request travels under.
pub open spec fn req_tag(r: PluginRequest) -> u8 {
    match r {
        PluginRequest::InterfaceVersion => TAG_INTERFACE_VERSION,
        PluginRequest::GetName => TAG_GET_NAME,
        PluginRequest::GetAssets => TAG_GET_ASSETS,
        PluginRequest::InspectInstance { .. } => TAG_INSPECT_INSTANCE,
        PluginRequest::RegisterInstance { .. } => TAG_REGISTER_INSTANCE,
        PluginRequest::DeregisterInstance { .. } => TAG_DEREGISTER_INSTANCE,
        PluginRequest::GetWallpapers { .. } => TAG_GET_WALLPAPERS,
        PluginRequest::GetInstances => TAG_GET_INSTANCES,
    }
}

/// The fields a request travels with: strings as UTF-8, blobs as they
/// are.
pub open spec fn req_fields(r: PluginRequest) -> Seq<Seq<u8>> {
    match r {
        PluginRequest::InterfaceVersion => Seq::empty(),
        PluginRequest::GetName => Seq::empty(),
        PluginRequest::GetAssets => Seq::empty(),
        PluginRequest::InspectInstance { instance } => seq![encode_utf8(instance@)],
        PluginRequest::RegisterInstance { instance, params } => seq![
            encode_utf8(instance@),
            params@,
        ],
        PluginRequest::DeregisterInstance { instance } => seq![encode_utf8(instance@)],
        PluginRequest::GetWallpapers { instance, known_ids } => seq![encode_utf8(instance@)]
            + known_ids.deep_view().map_values(|id: Seq<char>| encode_utf8(id)),
        PluginRequest::GetInstances => Seq::empty(),
    }
}

/// The tag a response travels under.
pub open spec fn resp_tag(r: PluginResponse) -> u8 {
    match r {
        PluginResponse::InterfaceVersion { .. } => TAG_INTERFACE_VERSION,
        PluginResponse::GetName { .. } => TAG_GET_NAME,
        PluginResponse::GetAssets { .. } => TAG_GET_ASSETS,
        PluginResponse::InspectInstance { .. } => TAG_INSPECT_INSTANCE,
        PluginResponse::RegisterInstance { .. } => TAG_REGISTER_INSTANCE,
        PluginResponse::DeregisterInstance => TAG_DEREGISTER_INSTANCE,
        PluginResponse::GetWallpapers { .. } => TAG_GET_WALLPAPERS,
        PluginResponse::GetInstances { .. } => TAG_GET_INSTANCES,
        PluginResponse::Failure { .. } => TAG_FAILURE,
    }
}

/// A response answers a request when it carries the request's own tag;
/// a plugin-reported failure answers any request.
pub open spec fn resp_matches(req: PluginRequest, resp: PluginResponse) -> bool {
    resp_tag(resp) == req_tag(req) || resp is Failure
}

/// The dispatch check: accepts a response exactly when its variant
/// answers the request; anything else is the protocol error.
pub fn check_response(req: &PluginRequest, resp: &PluginResponse) -> (r: Result<(), HostError>)
    ensures
        match r {
            Ok(_) => resp_matches(*req, *resp),
            Err(e) => e == HostError::Protocol && !resp_matches(*req, *resp),
        },
{
    let req_t = match req {
        PluginRequest::InterfaceVersion => TAG_INTERFACE_VERSION,
        PluginRequest::GetName => TAG_GET_NAME,
        PluginRequest::GetAssets => TAG_GET_ASSETS,
        PluginRequest::InspectInstance { .. } => TAG_INSPECT_INSTANCE,
        PluginRequest::RegisterInstance { .. } => TAG_REGISTER_INSTANCE,
        PluginRequest::DeregisterInstance { .. } => TAG_DEREGISTER_INSTANCE,
        PluginRequest::GetWallpapers { .. } => TAG_GET_WALLPAPERS,
        PluginRequest::GetInstances => TAG_GET_INSTANCES,
    };
    let resp_t = match resp {
        PluginResponse::InterfaceVersion { .. } => TAG_INTERFACE_VERSION,
        PluginResponse::GetName { .. } => TAG_GET_NAME,
        PluginResponse::GetAssets { .. } => TAG_GET_ASSETS,
        PluginResponse::InspectInstance { .. } => TAG_INSPECT_INSTANCE,
        PluginResponse::RegisterInstance { .. } => TAG_REGISTER_INSTANCE,
        PluginResponse::DeregisterInstance => TAG_DEREGISTER_INSTANCE,
        PluginResponse::GetWallpapers { .. } => TAG_GET_WALLPAPERS,
        PluginResponse::GetInstances { .. } => TAG_GET_INSTANCES,
        PluginResponse::Failure { .. } => TAG_FAILURE,
    };
    if resp_t == req_t || resp_t == TAG_FAILURE {
        Ok(())
    } else {
        Err(HostError::Protocol)
    }
}

/// A request whose fields fit the wire's length prefixes.
pub open spec fn req_fits(r: PluginRequest) -> bool {
    fields_fit(req_fields(r))
}

/// Encodes one request for the wire.
pub fn encode_request(r: &PluginRequest) -> (out: Vec<u8>)
    requires
        req_fits(*r),
    ensures
        out@ == spec_encode_frame(req_tag(*r), req_fields(*r)),
{
    let mut fields: Vec<Vec<u8>> = Vec::new();
    let tag: u8;
    match r {
        PluginRequest::InterfaceVersion => {
            tag = TAG_INTERFACE_VERSION;
        },
        PluginRequest::GetName => {
            tag = TAG_GET_NAME;
        },
        PluginRequest::GetAssets => {
            tag = TAG_GET_ASSETS;
        },
        PluginRequest::InspectInstance { instance } => {
            tag = TAG_INSPECT_INSTANCE;
            fields.push(instance.as_str().as_bytes_vec());
        },
        PluginRequest::RegisterInstance { instance, params } => {
            tag = TAG_REGISTER_INSTANCE;
            fields.push(instance.as_str().as_bytes_vec());
            let mut blob: Vec<u8> = Vec::new();
            blob.extend_from_slice(params.as_slice());
            proof {
                assert(blob@ =~= params@);
            }
            fields.push(blob);
        },
        PluginRequest::DeregisterInstance { instance } => {
            tag = TAG_DEREGISTER_INSTANCE;
            fields.push(instance.as_str().as_bytes_vec());
        },
        PluginRequest::GetWallpapers { instance, known_ids } => {
            tag = TAG_GET_WALLPAPERS;
            fields.push(instance.as_str().as_bytes_vec());
            let n = known_ids.len();
            let mut i: usize = 0;
            while i < n
                invariant
                    0 <= i <= n,
                    n == known_ids@.len(),
                    fields.deep_view() =~~= seq![encode_utf8(instance@)] + known_ids
                        .deep_view().map_values(|id: Seq<char>| encode_utf8(id)).take(i as int),
                decreases n - i,
            {
                let ghost prev = fields.deep_view();
                fields.push(known_ids[i].as_str().as_bytes_vec());
                proof {
                    let ghost mapped = known_ids.deep_view().map_values(
                        |id: Seq<char>| encode_utf8(id),
                    );
                    assert(fields.deep_view() =~~= prev.push(
                        encode_utf8(known_ids@[i as int]@),
                    ));
                    assert(mapped[i as int] == encode_utf8(known_ids.deep_view()[i as int]));
                    assert(known_ids.deep_view()[i as int] == known_ids@[i as int]@);
                    assert(mapped.take(i + 1) =~= mapped.take(i as int).push(mapped[i as int]));
                    assert(fields.deep_view() =~~= seq![encode_utf8(instance@)] + mapped.take(
                        i + 1,
                    ));
                }
                i = i + 1;
            }
            proof {
                let ghost mapped = known_ids.deep_view().map_values(
                    |id: Seq<char>| encode_utf8(id),
                );
                assert(mapped.take(n as int) =~= mapped);
            }
        },
        PluginRequest::GetInstances => {
            tag = TAG_GET_INSTANCES;
        },
    }
    proof {
        assert(fields.deep_view() =~~= req_fields(*r));
        assert(fields.deep_view().len() == req_fields(*r).len());
        assert forall|k: int| 0 <= k < fields@.len() implies (#[trigger] fields@[k])@.len()
            < 0x1_0000_0000 by {
            assert(fields@[k]@ == fields.deep_view()[k]);
            assert(fields.deep_view()[k] == req_fields(*r)[k]);
            assert(req_fields(*r)[k].len() < 0x1_0000_0000);
        }
    }
    encode_frame(tag, &fields)
}

/// The request round trip: any request whose fields fit parses back from
/// its own encoding to exactly its tag and fields.
pub proof fn lemma_request_round_trip(r: PluginRequest)
    requires
        req_fits(r),
    ensures
        spec_parse_frame(spec_encode_frame(req_tag(r), req_fields(r))) == Some(
            (req_tag(r), req_fields(r)),
        ),
{
    lemma_frame_round_trip(req_tag(r), req_fields(r));
}

/// Relies on `str::from_utf8` (and `to_string` to own the result): it
/// succeeds exactly on valid UTF-8, and the returned string's bytes are
/// exactly the input bytes.
#[verifier::external_body]
fn bytes_as_string(f: &[u8]) -> (r: Option<String>)
    ensures
        match r {
            Some(s) => valid_utf8(f@) && encode_utf8(s@) == f@,
            None => !valid_utf8(f@),
        },
{
    match std::str::from_utf8(f) {
        Ok(s) => Some(s.to_string()),
        Err(_) => None,
    }
}

/// An optional string on the wire: a marker byte, then the text when the
/// marker says so.
pub open spec fn opt_bytes(o: Option<String>) -> Seq<u8> {
    match o {
        Some(s) => seq![1u8] + encode_utf8(s@),
        None => seq![0u8],
    }
}

/// A boolean on the wire: one byte, zero or one.
pub open spec fn bool_byte(b: bool) -> Seq<u8> {
    if b {
        seq![1u8]
    } else {
        seq![0u8]
    }
}

/// A well-formed optional-string field.
pub open spec fn opt_field_ok(f: Seq<u8>) -> bool {
    f.len() >= 1 && ((f[0] == 0 && f.len() == 1) || (f[0] == 1 && valid_utf8(
        f.subrange(1, f.len() as int),
    )))
}

/// A well-formed boolean field.
pub open spec fn bool_field_ok(f: Seq<u8>) -> bool {
    f.len() == 1 && (f[0] == 0 || f[0] == 1)
}

/// The seven fields one candidate travels as: id, optional name, data
/// URL, optional info URL, date, source key, shown flag.
pub open spec fn candidate_fields(c: Candidate) -> Seq<Seq<u8>> {
    seq![
        encode_utf8(c.id@),
        opt_bytes(c.name),
        encode_utf8(c.data_url@),
        opt_bytes(c.info_url),
        spec_u64_to_le_bytes(c.date as u64),
        encode_utf8(c.source@),
        bool_byte(c.was_set),
    ]
}

/// The fields of a whole candidate list, seven per candidate.
pub open spec fn candidates_fields(ws: Seq<Candidate>) -> Seq<Seq<u8>>
    decreases ws.len(),
{
    if ws.len() == 0 {
        Seq::empty()
    } else {
        candidates_fields(ws.drop_last()) + candidate_fields(ws.last())
    }
}

/// The fields of an asset map, a path and its bytes per asset.
pub open spec fn assets_fields(a: Seq<(String, Vec<u8>)>) -> Seq<Seq<u8>>
    decreases a.len(),
{
    if a.len() == 0 {
        Seq::empty()
    } else {
        assets_fields(a.drop_last()) + seq![encode_utf8(a.last().0@), a.last().1@]
    }
}

/// The fields of a string list, one per entry.
pub open spec fn strs_fields(v: Seq<String>) -> Seq<Seq<u8>> {
    v.map_values(|s: String| encode_utf8(s@))
}

/// The fields a response travels with.
pub open spec fn resp_fields(r: PluginResponse) -> Seq<Seq<u8>> {
    match r {
        PluginResponse::InterfaceVersion { version } => seq![encode_utf8(version@)],
        PluginResponse::GetName { name } => seq![encode_utf8(name@)],
        PluginResponse::GetAssets { assets } => assets_fields(assets@),
        PluginResponse::InspectInstance { params } => seq![params@],
        PluginResponse::RegisterInstance { overwrote } => seq![bool_byte(overwrote)],
        PluginResponse::DeregisterInstance => Seq::empty(),
        PluginResponse::GetWallpapers { wallpapers } => candidates_fields(wallpapers@),
        PluginResponse::GetInstances { instances } => strs_fields(instances@),
        PluginResponse::Failure { message } => seq![encode_utf8(message@)],
    }
}

/// A candidate's seven fields are well-formed at `base`.
pub open spec fn candidate_shape_ok(fs: Seq<Seq<u8>>, base: int) -> bool {
    &&& valid_utf8(fs[base])
    &&& opt_field_ok(fs[base + 1])
    &&& valid_utf8(fs[base + 2])
    &&& opt_field_ok(fs[base + 3])
    &&& fs[base + 4].len() == 8
    &&& valid_utf8(fs[base + 5])
    &&& bool_field_ok(fs[base + 6])
}

/// A parsed frame decodes to a response exactly when its tag is in the
/// vocabulary and its fields have this shape.
pub open spec fn resp_shape_ok(tag: u8, fs: Seq<Seq<u8>>) -> bool {
    if tag == TAG_INTERFACE_VERSION || tag == TAG_GET_NAME || tag == TAG_FAILURE {
        fs.len() == 1 && valid_utf8(fs[0])
    } else if tag == TAG_GET_ASSETS {
        fs.len() % 2 == 0 && forall|p: int| 0 <= p < fs.len() / 2 ==> valid_utf8(
            #[trigger] fs[2 * p],
        )
    } else if tag == TAG_INSPECT_INSTANCE {
        fs.len() == 1
    } else if tag == TAG_REGISTER_INSTANCE {
        fs.len() == 1 && bool_field_ok(fs[0])
    } else if tag == TAG_DEREGISTER_INSTANCE {
        fs.len() == 0
    } else if tag == TAG_GET_WALLPAPERS {
        fs.len() % 7 == 0 && forall|c: int| 0 <= c < fs.len() / 7 ==> candidate_shape_ok(
            fs,
            #[trigger] (7 * c),
        )
    } else if tag == TAG_GET_INSTANCES {
        forall|k: int| 0 <= k < fs.len() ==> valid_utf8(#[trigger] fs[k])
    } else {
        false
    }
}

/// Reads the optional string at field `i`.
fn read_opt_string(fields: &Vec<Vec<u8>>, i: usize) -> (r: Result<Option<String>, HostError>)
    requires
        i < fields@.len(),
    ensures
        match r {
            Ok(o) => opt_field_ok(fields.deep_view()[i as int]) && opt_bytes(o) == fields
                .deep_view()[i as int],
            Err(e) => e == HostError::Protocol && !opt_field_ok(fields.deep_view()[i as int]),
        },
{
    let f = &fields[i];
    let ghost fv = fields.deep_view()[i as int];
    proof {
        assert(fv == f@);
    }
    if f.len() == 0 {
        return Err(HostError::Protocol);
    }
    if f[0] == 0 {
        if f.len() == 1 {
            proof {
                assert(opt_bytes(Option::<String>::None) =~= fv);
            }
            Ok(None)
        } else {
            Err(HostError::Protocol)
        }
    } else if f[0] == 1 {
        let text = slice_subrange(f.as_slice(), 1, f.len());
        match bytes_as_string(text) {
            Some(s) => {
                proof {
                    assert(opt_bytes(Some(s)) =~= fv);
                }
                Ok(Some(s))
            },
            None => Err(HostError::Protocol),
        }
    } else {
        Err(HostError::Protocol)
    }
}

/// Reads the candidate whose seven fields start at `base`.
fn read_candidate(fields: &Vec<Vec<u8>>, base: usize) -> (r: Result<Candidate, HostError>)
    requires
        base + 7 <= fields@.len(),
    ensures
        match r {
            Ok(c) => candidate_shape_ok(fields.deep_view(), base as int) && candidate_fields(c)
                == fields.deep_view().subrange(base as int, base + 7),
            Err(e) => e == HostError::Protocol && !candidate_shape_ok(
                fields.deep_view(),
                base as int,
            ),
        },
{
    let ghost fs = fields.deep_view();
    let n = fields.len();
    proof {
        assert(base + 7 <= n);
        assert forall|k: int| 0 <= k < fields@.len() implies fs[k] == (
        #[trigger] fields@[k])@ by {
            assert(fs[k] =~= fields@[k]@);
        }
    }
    let id = match bytes_as_string(fields[base].as_slice()) {
        Some(s) => s,
        None => {
            return Err(HostError::Protocol);
        },
    };
    let name = match read_opt_string(fields, base + 1) {
        Ok(o) => o,
        Err(e) => {
            return Err(e);
        },
    };
    let data_url = match bytes_as_string(fields[base + 2].as_slice()) {
        Some(s) => s,
        None => {
            return Err(HostError::Protocol);
        },
    };
    let info_url = match read_opt_string(fields, base + 3) {
        Ok(o) => o,
        Err(e) => {
            return Err(e);
        },
    };
    if fields[base + 4].len() != 8 {
        return Err(HostError::Protocol);
    }
    let date_raw = u64_from_le_bytes(fields[base + 4].as_slice());
    let source = match bytes_as_string(fields[base + 5].as_slice()) {
        Some(s) => s,
        None => {
            return Err(HostError::Protocol);
        },
    };
    let flag_field = &fields[base + 6];
    if flag_field.len() != 1 {
        return Err(HostError::Protocol);
    }
    let flag = flag_field[0];
    if flag > 1 {
        return Err(HostError::Protocol);
    }
    let date = date_raw as i64;
    let c = Candidate {
        id,
        name,
        data_url,
        info_url,
        date,
        source,
        was_set: flag == 1,
    };
    proof {
        lemma_auto_spec_u64_to_from_le_bytes();
        assert((date as u64) == date_raw) by (bit_vector)
            requires
                date == date_raw as i64,
        ;
        assert(spec_u64_to_le_bytes(c.date as u64) == fs[base + 4]);
        assert(bool_byte(c.was_set) =~= fs[base + 6]);
        assert(candidate_fields(c) =~~= fs.subrange(base as int, base + 7));
    }
    Ok(c)
}

/// Decodes one response frame: the transport error where the bytes are
/// not one well-formed frame, the protocol error where the frame's tag or
/// field shape is outside the response vocabulary.
pub fn decode_response(bytes: &Vec<u8>) -> (r: Result<PluginResponse, HostError>)
    ensures
        match r {
            Ok(resp) => spec_parse_frame(bytes@) == Some((resp_tag(resp), resp_fields(resp))),
            Err(e) => {
                &&& (e == HostError::Transport <==> spec_parse_frame(bytes@) is None)
                &&& (e == HostError::Protocol <==> match spec_parse_frame(bytes@) {
                    Some(p) => !resp_shape_ok(p.0, p.1),
                    None => false,
                })
                &&& (e == HostError::Transport || e == HostError::Protocol)
            },
        },
{
    let (tag, fields) = match decode_frame(bytes) {
        Ok(f) => f,
        Err(_) => {
            return Err(HostError::Transport);
        },
    };
    let ghost fs = fields.deep_view();
    proof {
        assert forall|k: int| 0 <= k < fields@.len() implies fs[k] == (
        #[trigger] fields@[k])@ by {
            assert(fs[k] =~= fields@[k]@);
        }
    }
    if tag == TAG_INTERFACE_VERSION || tag == TAG_GET_NAME || tag == TAG_FAILURE {
        if fields.len() != 1 {
            return Err(HostError::Protocol);
        }
        let s = match bytes_as_string(fields[0].as_slice()) {
            Some(s) => s,
            None => {
                return Err(HostError::Protocol);
            },
        };
        let resp = if tag == TAG_INTERFACE_VERSION {
            PluginResponse::InterfaceVersion { version: s }
        } else if tag == TAG_GET_NAME {
            PluginResponse::GetName { name: s }
        } else {
            PluginResponse::Failure { message: s }
        };
        proof {
            assert(resp_fields(resp) =~~= fs);
        }
        Ok(resp)
    } else if tag == TAG_GET_ASSETS {
        if fields.len() % 2 != 0 {
            return Err(HostError::Protocol);
        }
        let pairs = fields.len() / 2;
        let total = fields.len();
        let mut assets: Vec<(String, Vec<u8>)> = Vec::new();
        let mut i: usize = 0;
        proof {
            assert(assets_fields(assets@) =~~= fs.take(0));
        }
        while i < pairs
            invariant
                0 <= i <= pairs,
                pairs == fields@.len() / 2,
                fields@.len() % 2 == 0,
                fs == fields.deep_view(),
                2 * pairs == fields@.len(),
                total == fields@.len(),
                spec_parse_frame(bytes@) == Some((tag, fs)),
                tag == TAG_GET_ASSETS,
                forall|k: int| 0 <= k < fields@.len() ==> fs[k] == (#[trigger] fields@[k])@,
                assets_fields(assets@) == fs.take(2 * i),
                forall|p: int| 0 <= p < i ==> valid_utf8(#[trigger] fs[2 * p]),
            decreases pairs - i,
        {
            proof {
                assert(2 * (i as int) + 1 < total);
            }
            let key = match bytes_as_string(fields[2 * i].as_slice()) {
                Some(s) => s,
                None => {
                    proof {
                        assert(!valid_utf8(fs[2 * (i as int)]));
                    }
                    return Err(HostError::Protocol);
                },
            };
            let value = vstd::slice::slice_to_vec(fields[2 * i + 1].as_slice());
            let ghost prev = assets@;
            assets.push((key, value));
            proof {
                assert(assets@ =~= prev.push((key, value)));
                assert(assets@.drop_last() =~= prev);
                assert(assets_fields(assets@) == assets_fields(prev) + seq![
                    encode_utf8(key@),
                    value@,
                ]);
                assert(fs.take(2 * (i + 1)) =~= fs.take(2 * (i as int)) + seq![
                    fs[2 * (i as int)],
                    fs[2 * (i as int) + 1],
                ]);
                assert(assets_fields(assets@) =~~= fs.take(2 * (i + 1)));
            }
            i = i + 1;
        }
        proof {
            assert(fs.take(2 * (pairs as int)) =~= fs);
        }
        Ok(PluginResponse::GetAssets { assets })
    } else if tag == TAG_INSPECT_INSTANCE {
        if fields.len() != 1 {
            return Err(HostError::Protocol);
        }
        let params = vstd::slice::slice_to_vec(fields[0].as_slice());
        let resp = PluginResponse::InspectInstance { params };
        proof {
            assert(resp_fields(resp) =~~= fs);
        }
        Ok(resp)
    } else if tag == TAG_REGISTER_INSTANCE {
        if fields.len() != 1 {
            return Err(HostError::Protocol);
        }
        let f = &fields[0];
        if f.len() != 1 {
            return Err(HostError::Protocol);
        }
        let b = f[0];
        if b > 1 {
            return Err(HostError::Protocol);
        }
        let resp = PluginResponse::RegisterInstance { overwrote: b == 1 };
        proof {
            assert(bool_byte(b == 1) =~= fs[0]);
            assert(resp_fields(resp) =~~= fs);
        }
        Ok(resp)
    } else if tag == TAG_DEREGISTER_INSTANCE {
        if fields.len() != 0 {
            return Err(HostError::Protocol);
        }
        proof {
            assert(resp_fields(PluginResponse::DeregisterInstance) =~~= fs);
        }
        Ok(PluginResponse::DeregisterInstance)
    } else if tag == TAG_GET_WALLPAPERS {
        if fields.len() % 7 != 0 {
            return Err(HostError::Protocol);
        }
        let count = fields.len() / 7;
        let total = fields.len();
        let mut wallpapers: Vec<Candidate> = Vec::new();
        let mut i: usize = 0;
        proof {
            assert(candidates_fields(wallpapers@) =~~= fs.take(0));
        }
        while i < count
            invariant
                0 <= i <= count,
                count == fields@.len() / 7,
                fields@.len() % 7 == 0,
                fs == fields.deep_view(),
                7 * count == fields@.len(),
                total == fields@.len(),
                spec_parse_frame(bytes@) == Some((tag, fs)),
                tag == TAG_GET_WALLPAPERS,
                forall|k: int| 0 <= k < fields@.len() ==> fs[k] == (#[trigger] fields@[k])@,
                candidates_fields(wallpapers@) == fs.take(7 * i),
                forall|c: int| 0 <= c < i ==> candidate_shape_ok(fs, #[trigger] (7 * c)),
            decreases count - i,
        {
            proof {
                assert(7 * (i as int) + 7 <= total);
            }
            let c = match read_candidate(&fields, 7 * i) {
                Ok(c) => c,
                Err(_) => {
                    proof {
                        assert(!candidate_shape_ok(fs, 7 * (i as int)));
                    }
                    return Err(HostError::Protocol);
                },
            };
            let ghost prev = wallpapers@;
            wallpapers.push(c);
            proof {
                assert(wallpapers@ =~= prev.push(c));
                assert(wallpapers@.drop_last() =~= prev);
                assert(candidates_fields(wallpapers@) == candidates_fields(prev)
                    + candidate_fields(c));
                assert(fs.take(7 * (i + 1)) =~= fs.take(7 * (i as int)) + fs.subrange(
                    7 * (i as int),
                    7 * (i as int) + 7,
                ));
                assert(candidates_fields(wallpapers@) =~~= fs.take(7 * (i + 1)));
            }
            i = i + 1;
        }
        proof {
            assert(fs.take(7 * (count as int)) =~= fs);
        }
        Ok(PluginResponse::GetWallpapers { wallpapers })
    } else if tag == TAG_GET_INSTANCES {
        let n = fields.len();
        let mut instances: Vec<String> = Vec::new();
        let mut i: usize = 0;
        proof {
            assert(strs_fields(instances@) =~~= fs.take(0));
        }
        while i < n
            invariant
                0 <= i <= n,
                n == fields@.len(),
                fs == fields.deep_view(),
                spec_parse_frame(bytes@) == Some((tag, fs)),
                tag == TAG_GET_INSTANCES,
                forall|k: int| 0 <= k < fields@.len() ==> fs[k] == (#[trigger] fields@[k])@,
                strs_fields(instances@) == fs.take(i as int),
                forall|k: int| 0 <= k < i ==> valid_utf8(#[trigger] fs[k]),
            decreases n - i,
        {
            let s = match bytes_as_string(fields[i].as_slice()) {
                Some(s) => s,
                None => {
                    proof {
                        assert(!valid_utf8(fs[i as int]));
                    }
                    return Err(HostError::Protocol);
                },
            };
            let ghost prev = instances@;
            instances.push(s);
            proof {
                assert(instances@ =~= prev.push(s));
                assert(encode_utf8(s@) == fs[i as int]);
                assert(strs_fields(instances@) =~= strs_fields(prev).push(encode_utf8(s@)));
                assert(fs.take(i + 1) =~= fs.take(i as int).push(fs[i as int]));
                assert(strs_fields(instances@) =~~= fs.take(i + 1));
            }
            i = i + 1;
        }
        proof {
            assert(fs.take(n as int) =~= fs);
        }
        Ok(PluginResponse::GetInstances { instances })
    } else {
        Err(HostError::Protocol)
    }
}

} // verus!
