//! Name-based identifiers for jots, tags and jot-tag mappings.
use vstd::prelude::*;
use vstd::utf8::encode_utf8;

use crate::models::RawJot;
use crate::stardate::StarDate;
use crate::text::{canonical_tag, canonicalize_tag, trim, trim_of};

verus! {

/// A 16-byte identifier in the layout of RFC 4122.
#[derive(Clone, Copy, Debug)]
pub struct Uuid {
    pub bytes: [u8; 16],
}

impl View for Uuid {
    type V = Seq<u8>;

    open spec fn view(&self) -> Seq<u8> {
        self.bytes@
    }
}

impl Uuid {
    /// Builds an identifier from its 16 bytes.
    pub fn from_bytes(bytes: [u8; 16]) -> (r: Uuid)
        ensures
            r@ == bytes@,
    {
        Uuid { bytes }
    }

    /// The version number held in the high nibble of byte 6.
    pub open spec fn version(self) -> u8 {
        self@[6] / 16
    }
}

impl PartialEq for Uuid {
    fn eq(&self, o: &Uuid) -> (r: bool) {
        let mut i: usize = 0;
        while i < 16
            invariant
                0 <= i <= 16,
                self.bytes@.len() == 16,
                o.bytes@.len() == 16,
                self.bytes@.subrange(0, i as int) == o.bytes@.subrange(0, i as int),
            decreases 16 - i,
        {
            if self.bytes[i] != o.bytes[i] {
                assert(self.bytes@[i as int] != o.bytes@[i as int]);
                return false;
            }
            assert(self.bytes@.subrange(0, i + 1) == self.bytes@.subrange(0, i as int).push(
                self.bytes@[i as int],
            ));
            assert(o.bytes@.subrange(0, i + 1) == o.bytes@.subrange(0, i as int).push(
                o.bytes@[i as int],
            ));
            i = i + 1;
        }
        assert(self.bytes@ == self.bytes@.subrange(0, 16));
        assert(o.bytes@ == o.bytes@.subrange(0, 16));
        true
    }
}

impl vstd::std_specs::cmp::PartialEqSpecImpl for Uuid {
    open spec fn obeys_eq_spec() -> bool {
        true
    }

    open spec fn eq_spec(&self, o: &Uuid) -> bool {
        self@ == o@
    }
}

impl Eq for Uuid {}

/// What a version-5 identifier is for a namespace and a name.
pub uninterp spec fn name_uuid(ns: Seq<u8>, name: Seq<u8>) -> Seq<u8>;

/// Relies on uuid::Uuid::new_v5: the SHA-1 name-based identifier of `name` in
/// namespace `ns`, a function of the two byte strings alone, with version 5 set
/// in the high nibble of byte 6.
#[verifier::external_body]
fn new_v5(ns: &Uuid, name: &[u8]) -> (r: Uuid)
    ensures
        r@ == name_uuid(ns@, name@),
        r.version() == 5,
{
    Uuid { bytes: *uuid::Uuid::new_v5(&uuid::Uuid::from_bytes(ns.bytes), name).as_bytes() }
}

/// Relies on uuid::Uuid::new_v4: random bytes with version 4 set in the high
/// nibble of byte 6.
#[verifier::external_body]
pub(crate) fn new_v4() -> (r: Uuid)
    ensures
        r.version() == 4,
{
    Uuid { bytes: *uuid::Uuid::new_v4().as_bytes() }
}

/// The bytes of the fixed root namespace 930ccacb-5523-4be7-8045-f033465dae8f.
pub open spec fn jot_namespace() -> Seq<u8> {
    seq![
        0x93u8, 0x0cu8, 0xcau8, 0xcbu8, 0x55u8, 0x23u8, 0x4bu8, 0xe7u8,
        0x80u8, 0x45u8, 0xf0u8, 0x33u8, 0x46u8, 0x5du8, 0xaeu8, 0x8fu8,
    ]
}

/// The fixed root namespace from which every identifier descends.
pub fn namespace_jot() -> (r: Uuid)
    ensures
        r@ == jot_namespace(),
{
    let r = Uuid {
        bytes: [
            0x93u8, 0x0cu8, 0xcau8, 0xcbu8, 0x55u8, 0x23u8, 0x4bu8, 0xe7u8,
            0x80u8, 0x45u8, 0xf0u8, 0x33u8, 0x46u8, 0x5du8, 0xaeu8, 0x8fu8,
        ],
    };
    assert(r@ =~= jot_namespace());
    r
}

/// The identifier of `data` under the root namespace.
pub open spec fn ns_uuid(data: Seq<u8>) -> Seq<u8> {
    name_uuid(jot_namespace(), data)
}

/// The per-installation namespace derived from a device id.
pub open spec fn device_root(device: Seq<u8>) -> Seq<u8> {
    ns_uuid(device)
}

/// The identifier of a jot-tag pair: the root namespace over both ids' bytes.
pub open spec fn mapping_id_of(jot: Seq<u8>, tag: Seq<u8>) -> Seq<u8> {
    ns_uuid(jot + tag)
}

/// Derives an identifier for `data` in the root namespace.
pub fn mk_jot_ns_uuid(data: &[u8]) -> (r: Uuid)
    ensures
        r@ == ns_uuid(data@),
        r.version() == 5,
{
    let ns = namespace_jot();
    new_v5(&ns, data)
}

/// The bytes of an identifier.
pub fn fmt_uuid(u: Uuid) -> (r: Vec<u8>)
    ensures
        r@ == u@,
{
    let mut r: Vec<u8> = Vec::new();
    let mut i: usize = 0;
    while i < 16
        invariant
            0 <= i <= 16,
            u.bytes@.len() == 16,
            r@ == u.bytes@.subrange(0, i as int),
        decreases 16 - i,
    {
        r.push(u.bytes[i]);
        assert(u.bytes@.subrange(0, i + 1) == u.bytes@.subrange(0, i as int).push(
            u.bytes@[i as int],
        ));
        i = i + 1;
    }
    assert(u.bytes@ == u.bytes@.subrange(0, 16));
    r
}

/// Appends `b` to `out`.
pub(crate) fn append_bytes(out: &mut Vec<u8>, b: &[u8])
    ensures
        final(out)@ == old(out)@ + b@,
{
    let mut i: usize = 0;
    while i < b.len()
        invariant
            0 <= i <= b@.len(),
            out@ == old(out)@ + b@.subrange(0, i as int),
        decreases b@.len() - i,
    {
        out.push(b[i]);
        assert(b@.subrange(0, i + 1) == b@.subrange(0, i as int).push(b@[i as int]));
        i = i + 1;
    }
    assert(b@ == b@.subrange(0, b@.len() as int));
}

/// The per-installation namespace (device root) of a device id.
pub fn get_joenal_root(dev_id: &Uuid) -> (r: Uuid)
    ensures
        r@ == device_root(dev_id@),
        r.version() == 5,
{
    let bytes = fmt_uuid(*dev_id);
    mk_jot_ns_uuid(bytes.as_slice())
}

/// The device root of a device id given as its bytes.
pub fn get_jotlog_root(dev_id: &[u8]) -> (r: Uuid)
    ensures
        r@ == device_root(dev_id@),
        r.version() == 5,
{
    mk_jot_ns_uuid(dev_id)
}

/// The identifier of the mapping between a jot and a tag.
pub fn mk_mapping_id(jot_id: &Uuid, tag_id: &Uuid) -> (r: Uuid)
    ensures
        r@ == mapping_id_of(jot_id@, tag_id@),
        r.version() == 5,
{
    let mut data = fmt_uuid(*jot_id);
    let tag_bytes = fmt_uuid(*tag_id);
    append_bytes(&mut data, tag_bytes.as_slice());
    mk_jot_ns_uuid(data.as_slice())
}


/// The identifier of a tag: the root namespace over its canonical text's UTF-8 bytes.
pub open spec fn tag_id_of(text: Seq<char>) -> Seq<u8> {
    ns_uuid(encode_utf8(canonical_tag(text)))
}

/// The name hashed for a jot: its trimmed content's bytes, then its date's
/// RFC 3339 bytes.
pub open spec fn jot_name(content: Seq<char>, date: StarDate) -> Seq<u8> {
    encode_utf8(trim_of(content)) + encode_utf8(date.text())
}

/// The identifier of a jot under a device root.
pub open spec fn jot_id_of(root: Seq<u8>, content: Seq<char>, date: StarDate) -> Seq<u8> {
    name_uuid(root, jot_name(content, date))
}

/// The identifier of a tag, from its canonical text.
pub fn mk_tag_id(tag: &str) -> (r: Uuid)
    ensures
        r@ == tag_id_of(tag@),
        r.version() == 5,
{
    let canon = canonicalize_tag(tag);
    mk_jot_ns_uuid(canon.as_str().as_bytes())
}

/// The identifier of a jot under device root `root`.
pub fn mk_jot_id(root: &Uuid, jot: &RawJot) -> (r: Uuid)
    ensures
        r@ == jot_id_of(root@, jot.content@, jot.creation_date),
        r.version() == 5,
{
    let mut name: Vec<u8> = Vec::new();
    let content = trim(jot.content.as_str());
    append_bytes(&mut name, content.as_str().as_bytes());
    let date = jot.creation_date.to_rfc3339();
    append_bytes(&mut name, date.as_str().as_bytes());
    new_v5(root, name.as_slice())
}

} // verus!
