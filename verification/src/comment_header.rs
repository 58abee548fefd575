//! The Opus comment header codec: the second packet of an Ogg Opus stream.
//! Layout: the magic `OpusTags`, a vendor string with a 32-bit little-endian
//! length, a 32-bit entry count, then each entry as a length-prefixed
//! `KEY=VALUE` byte string; any bytes after the last declared entry are a
//! framing tail and are preserved verbatim.
use vstd::prelude::*;

use crate::bytes::{push_bytes, subvec};
use crate::comment_list::{
    lemma_split_of_joined, lemma_split_reassemble, spec_get_first, spec_remove_key,
    spec_retain_not_matching, spec_split_at_eq, valid_key, wf_entry, DiscreteCommentList,
    EntryModel, KeyValueMatch,
};
use crate::error::Error;

verus! {

/// The eight magic bytes `OpusTags`.
pub open spec fn comment_magic() -> Seq<u8> {
    seq![0x4fu8, 0x70, 0x75, 0x73, 0x54, 0x61, 0x67, 0x73]
}

/// The little-endian 4-byte encoding of `n`.
pub open spec fn le32_bytes(n: int) -> Seq<u8> {
    seq![
        (n % 256) as u8,
        ((n / 256) % 256) as u8,
        ((n / 65536) % 256) as u8,
        ((n / 16777216) % 256) as u8,
    ]
}

/// The value of 4 little-endian bytes.
pub open spec fn le32_val(b: Seq<u8>) -> int {
    b[0] + b[1] * 256 + b[2] * 65536 + b[3] * 16777216
}

/// Encoding then decoding a 32-bit value is the identity.
pub proof fn lemma_le32_roundtrip(n: int)
    requires
        0 <= n <= u32::MAX,
    ensures
        le32_val(le32_bytes(n)) == n,
{
    vstd::arithmetic::div_mod::lemma_fundamental_div_mod(n, 256);
    vstd::arithmetic::div_mod::lemma_fundamental_div_mod(n / 256, 256);
    vstd::arithmetic::div_mod::lemma_fundamental_div_mod(n / 65536, 256);
    vstd::arithmetic::div_mod::lemma_div_denominator(n, 256, 256);
    vstd::arithmetic::div_mod::lemma_div_denominator(n, 65536, 256);
    assert(n / 256 / 256 == n / 65536);
    assert(n / 65536 / 256 == n / 16777216);
    assert(0 <= n / 16777216 < 256) by (nonlinear_arith)
        requires
            0 <= n <= u32::MAX,
    ;
}

/// Decoding then encoding 4 bytes is the identity.
pub proof fn lemma_le32_bytes_of_val(b: Seq<u8>)
    requires
        b.len() == 4,
    ensures
        le32_bytes(le32_val(b)) == b,
{
    let n = le32_val(b);
    assert(0 <= n <= u32::MAX);
    assert(n % 256 == b[0] && (n / 256) % 256 == b[1] && (n / 65536) % 256 == b[2] && (n
        / 16777216) % 256 == b[3]) by (nonlinear_arith)
        requires
            n == b[0] + b[1] * 256 + b[2] * 65536 + b[3] * 16777216,
            0 <= b[0] < 256,
            0 <= b[1] < 256,
            0 <= b[2] < 256,
            0 <= b[3] < 256,
    ;
    assert(le32_bytes(n) =~= b);
}

/// The mathematical form of a comment header.
pub struct CommentHeaderModel {
    pub vendor: Seq<u8>,
    pub entries: Seq<EntryModel>,
    pub tail: Seq<u8>,
}

/// A representable model: lengths fit the layout's 32-bit fields and every
/// entry is well formed.
pub open spec fn wf_model(m: CommentHeaderModel) -> bool {
    &&& m.vendor.len() <= u32::MAX
    &&& m.entries.len() <= u32::MAX
    &&& forall|i: int| 0 <= i < m.entries.len() ==> wf_entry(m.entries[i])
}

/// The outcome of appending entries one by one, with `push`'s checks: the
/// final entry list, and the first error met, if any.
pub open spec fn spec_extend(entries: Seq<EntryModel>, add: Seq<EntryModel>) -> (
    Seq<EntryModel>,
    Option<Error>,
)
    decreases add.len(),
{
    if add.len() == 0 {
        (entries, None::<Error>)
    } else {
        let e = add[0];
        if !valid_key(e.key) {
            (entries, Some(Error::InvalidCommentFieldName))
        } else if e.key.len() + 1 + e.value.len() > u32::MAX {
            (entries, Some(Error::CommentHeaderTooLarge))
        } else if entries.len() >= u32::MAX {
            (entries, Some(Error::CommentHeaderTooLarge))
        } else {
            spec_extend(entries.push(e), add.drop_first())
        }
    }
}

/// The `KEY=VALUE` bytes of one entry.
pub open spec fn spec_entry_bytes(e: EntryModel) -> Seq<u8> {
    e.key + seq![61u8] + e.value
}

/// The length-prefixed serialization of a list of entries.
pub open spec fn spec_serialize_entries(es: Seq<EntryModel>) -> Seq<u8>
    decreases es.len(),
{
    if es.len() == 0 {
        Seq::empty()
    } else {
        le32_bytes(spec_entry_bytes(es[0]).len() as int) + spec_entry_bytes(es[0])
            + spec_serialize_entries(es.drop_first())
    }
}

/// The full serialization of a comment header.
pub open spec fn spec_serialize(m: CommentHeaderModel) -> Seq<u8> {
    comment_magic() + le32_bytes(m.vendor.len() as int) + m.vendor + le32_bytes(
        m.entries.len() as int,
    ) + spec_serialize_entries(m.entries) + m.tail
}

/// An entry parsed from its `KEY=VALUE` bytes: split at the first `=`, the
/// key validated.
pub open spec fn spec_entry_of_bytes(b: Seq<u8>) -> Option<EntryModel> {
    match spec_split_at_eq(b) {
        Some(kv) => if valid_key(kv.0) {
            Some(EntryModel { key: kv.0, value: kv.1 })
        } else {
            None
        },
        None => None,
    }
}

/// Parses `count` length-prefixed entries from the front of `d`; what
/// follows them is the framing tail.
pub open spec fn spec_parse_entries(d: Seq<u8>, count: nat) -> Option<(Seq<EntryModel>, Seq<u8>)>
    decreases count,
{
    if count == 0 {
        Some((Seq::empty(), d))
    } else if d.len() < 4 {
        None
    } else {
        let len = le32_val(d.subrange(0, 4));
        if d.len() - 4 < len {
            None
        } else {
            match spec_entry_of_bytes(d.subrange(4, 4 + len)) {
                Some(e) => match spec_parse_entries(d.skip(4 + len), (count - 1) as nat) {
                    Some(rt) => Some((seq![e] + rt.0, rt.1)),
                    None => None,
                },
                None => None,
            }
        }
    }
}

/// Whether `d` starts with the `OpusTags` magic.
pub open spec fn spec_has_comment_magic(d: Seq<u8>) -> bool {
    d.len() >= 8 && d.subrange(0, 8) == comment_magic()
}

/// Parses everything after the magic: vendor, entries, tail.
pub open spec fn spec_parse_body(d: Seq<u8>) -> Option<CommentHeaderModel> {
    if d.len() < 4 {
        None
    } else {
        let vlen = le32_val(d.subrange(0, 4));
        if d.len() - 4 < vlen {
            None
        } else {
            let rest = d.skip(4 + vlen);
            if rest.len() < 4 {
                None
            } else {
                let count = le32_val(rest.subrange(0, 4));
                match spec_parse_entries(rest.skip(4), count as nat) {
                    Some(et) => Some(
                        CommentHeaderModel {
                            vendor: d.subrange(4, 4 + vlen),
                            entries: et.0,
                            tail: et.1,
                        },
                    ),
                    None => None,
                }
            }
        }
    }
}

/// Reads a 32-bit little-endian value at `pos`.
fn read_le32(d: &Vec<u8>, pos: usize) -> (r: u32)
    requires
        pos + 4 <= d@.len(),
    ensures
        r == le32_val(d@.subrange(pos as int, pos as int + 4)),
{
    let len = d.len();
    proof {
        assert(pos + 4 <= len);
    }
    let b0 = d[pos] as u32;
    let b1 = d[pos + 1] as u32;
    let b2 = d[pos + 2] as u32;
    let b3 = d[pos + 3] as u32;
    let r = b0 + b1 * 256 + b2 * 65536 + b3 * 16777216;
    proof {
        let sub = d@.subrange(pos as int, pos as int + 4);
        assert(sub[0] == d@[pos as int] && sub[1] == d@[pos as int + 1] && sub[2] == d@[pos as int
            + 2] && sub[3] == d@[pos as int + 3]);
    }
    r
}

/// Appends the 32-bit little-endian encoding of `v`.
fn push_le32(out: &mut Vec<u8>, v: u32)
    ensures
        final(out)@ == old(out)@ + le32_bytes(v as int),
{
    out.push((v % 256) as u8);
    out.push(((v / 256) % 256) as u8);
    out.push(((v / 65536) % 256) as u8);
    out.push(((v / 16777216) % 256) as u8);
    proof {
        assert(out@ =~= old(out)@ + le32_bytes(v as int));
    }
}

/// Serializing entries looks at one entry at a time.
proof fn lemma_serialize_entries_concat(a: Seq<EntryModel>, b: Seq<EntryModel>)
    ensures
        spec_serialize_entries(a + b) == spec_serialize_entries(a) + spec_serialize_entries(b),
    decreases a.len(),
{
    if a.len() == 0 {
        assert(a + b =~= b);
        assert(spec_serialize_entries(a) + spec_serialize_entries(b) =~= spec_serialize_entries(
            b,
        ));
    } else {
        lemma_serialize_entries_concat(a.drop_first(), b);
        assert((a + b).drop_first() =~= a.drop_first() + b);
        assert((a + b)[0] == a[0]);
        assert(spec_serialize_entries(a) + spec_serialize_entries(b) =~= le32_bytes(
            spec_entry_bytes(a[0]).len() as int,
        ) + spec_entry_bytes(a[0]) + (spec_serialize_entries(a.drop_first())
            + spec_serialize_entries(b)));
    }
}

/// A parsed Opus comment header: vendor string, comment list, framing tail.
#[derive(Debug, PartialEq)]
pub struct CommentHeader {
    vendor: Vec<u8>,
    comments: DiscreteCommentList,
    tail: Vec<u8>,
}

impl View for CommentHeader {
    type V = CommentHeaderModel;

    closed spec fn view(&self) -> CommentHeaderModel {
        CommentHeaderModel { vendor: self.vendor@, entries: self.comments@, tail: self.tail@ }
    }
}

impl CommentHeader {
    /// The header is representable in the layout.
    pub open spec fn wf(&self) -> bool {
        wf_model(self@)
    }

    /// A header with the given vendor string, no comments and no tail.
    pub fn new(vendor: Vec<u8>) -> (r: CommentHeader)
        requires
            vendor@.len() <= u32::MAX,
        ensures
            r@.vendor == vendor@,
            r@.entries == Seq::<EntryModel>::empty(),
            r@.tail == Seq::<u8>::empty(),
            r.wf(),
    {
        let r = CommentHeader {
            vendor,
            comments: DiscreteCommentList::with_capacity(0),
            tail: Vec::new(),
        };
        proof {
            assert(r@.tail =~= Seq::<u8>::empty());
        }
        r
    }

    /// Serializes the header; this is exactly the byte sequence the header
    /// was parsed from when nothing was changed in between.
    pub fn serialize(&self) -> (r: Vec<u8>)
        requires
            self.wf(),
        ensures
            r@ == spec_serialize(self@),
    {
        let mut out: Vec<u8> = Vec::new();
        out.push(0x4f);
        out.push(0x70);
        out.push(0x75);
        out.push(0x73);
        out.push(0x54);
        out.push(0x61);
        out.push(0x67);
        out.push(0x73);
        proof {
            assert(out@ =~= comment_magic());
        }
        push_le32(&mut out, self.vendor.len() as u32);
        push_bytes(&mut out, &self.vendor);
        push_le32(&mut out, self.comments.len() as u32);
        let ghost head = comment_magic() + le32_bytes(self@.vendor.len() as int) + self@.vendor
            + le32_bytes(self@.entries.len() as int);
        proof {
            assert(out@ =~= head);
            assert(out@ =~= head + spec_serialize_entries(self@.entries.take(0)));
        }
        let n = self.comments.len();
        let mut k: usize = 0;
        while k < n
            invariant
                k <= n,
                n == self@.entries.len(),
                self.wf(),
                out@ == head + spec_serialize_entries(self@.entries.take(k as int)),
            decreases n - k,
        {
            let (key, value) = self.comments.entry_at(k);
            let ghost e = self@.entries[k as int];
            let elen = key.len() + 1 + value.len();
            push_le32(&mut out, elen as u32);
            push_bytes(&mut out, key);
            out.push(61);
            push_bytes(&mut out, value);
            proof {
                assert(spec_entry_bytes(e) =~= key@ + seq![61u8] + value@);
                assert(spec_entry_bytes(e).len() == elen);
                let one = seq![e];
                lemma_serialize_entries_concat(self@.entries.take(k as int), one);
                assert(one.drop_first() =~= Seq::<EntryModel>::empty());
                assert(spec_serialize_entries(Seq::<EntryModel>::empty())
                    =~= Seq::<u8>::empty());
                assert(spec_serialize_entries(one) =~= le32_bytes(spec_entry_bytes(e).len() as int)
                    + spec_entry_bytes(e));
                assert(self@.entries.take(k + 1) =~= self@.entries.take(k as int) + one);
                assert(out@ =~= head + spec_serialize_entries(self@.entries.take(k + 1)));
            }
            k = k + 1;
        }
        proof {
            assert(self@.entries.take(n as int) =~= self@.entries);
        }
        push_bytes(&mut out, &self.tail);
        proof {
            assert(out@ =~= spec_serialize(self@));
        }
        out
    }
}

/// Glues already-parsed entries onto the outcome of parsing the rest.
spec fn compose_entries(prefix: Seq<EntryModel>, rest: Option<(Seq<EntryModel>, Seq<u8>)>) -> Option<
    (Seq<EntryModel>, Seq<u8>),
> {
    match rest {
        Some(rt) => Some((prefix + rt.0, rt.1)),
        None => None,
    }
}

impl CommentHeader {
    /// Attempts to parse a packet as a comment header: `None` when the
    /// magic is absent, an error when the declared layout is broken.
    #[verifier::rlimit(100)]
    pub fn try_parse(data: &Vec<u8>) -> (r: Result<Option<CommentHeader>, Error>)
        ensures
            !spec_has_comment_magic(data@) ==> r == Ok::<Option<CommentHeader>, Error>(None),
            spec_has_comment_magic(data@) && spec_parse_body(data@.skip(8)) is None ==> r
                == Err::<Option<CommentHeader>, Error>(Error::MalformedCommentHeader),
            spec_has_comment_magic(data@) && spec_parse_body(data@.skip(8)) is Some ==> (r
                matches Ok(Some(h)) && h@ == spec_parse_body(data@.skip(8))->Some_0 && h.wf()),
    {
        let len = data.len();
        if len < 8 {
            return Ok(None);
        }
        let magic: [u8; 8] = [0x4f, 0x70, 0x75, 0x73, 0x54, 0x61, 0x67, 0x73];
        let mut i: usize = 0;
        while i < 8
            invariant
                i <= 8,
                data@.len() >= 8,
                magic@ == comment_magic(),
                forall|j: int| 0 <= j < i ==> data@[j] == comment_magic()[j],
            decreases 8 - i,
        {
            if data[i] != magic[i] {
                proof {
                    assert(data@.subrange(0, 8)[i as int] != comment_magic()[i as int]);
                }
                return Ok(None);
            }
            i = i + 1;
        }
        proof {
            assert(data@.subrange(0, 8) =~= comment_magic());
        }
        let ghost body = data@.skip(8);
        if len < 12 {
            return Err(Error::MalformedCommentHeader);
        }
        let vlen32 = read_le32(data, 8);
        proof {
            assert(body.subrange(0, 4) =~= data@.subrange(8, 12));
        }
        let vlen = vlen32 as usize;
        if len - 12 < vlen {
            return Err(Error::MalformedCommentHeader);
        }
        let vendor = subvec(data, 12, 12 + vlen);
        proof {
            assert(body.subrange(4, 4 + vlen32 as int) =~= data@.subrange(12, 12 + vlen as int));
        }
        let pos0 = 12 + vlen;
        let ghost rest = body.skip(4 + vlen32 as int);
        proof {
            assert(rest =~= data@.skip(pos0 as int));
        }
        if len - pos0 < 4 {
            return Err(Error::MalformedCommentHeader);
        }
        let count32 = read_le32(data, pos0);
        proof {
            assert(rest.subrange(0, 4) =~= data@.subrange(pos0 as int, pos0 as int + 4));
        }
        let ghost entries_d = rest.skip(4);
        let mut list = DiscreteCommentList::with_capacity(0);
        let mut pos: usize = pos0 + 4;
        let mut k: u32 = 0;
        proof {
            assert(entries_d =~= data@.skip(pos as int));
            match spec_parse_entries(data@.skip(pos as int), count32 as nat) {
                Some(rt) => {
                    assert(Seq::<EntryModel>::empty() + rt.0 =~= rt.0);
                },
                None => {},
            }
        }
        while k < count32
            invariant
                pos0 + 4 <= pos <= len,
                len == data@.len(),
                k <= count32,
                list.wf(),
                list@.len() == k,
                spec_parse_entries(entries_d, count32 as nat) == compose_entries(
                    list@,
                    spec_parse_entries(data@.skip(pos as int), (count32 - k) as nat),
                ),
            decreases count32 - k,
        {
            let ghost d_pos = data@.skip(pos as int);
            let ghost remaining = (count32 - k) as nat;
            if len - pos < 4 {
                return Err(Error::MalformedCommentHeader);
            }
            let elen32 = read_le32(data, pos);
            proof {
                assert(d_pos.subrange(0, 4) =~= data@.subrange(pos as int, pos as int + 4));
            }
            let elen = elen32 as usize;
            if len - (pos + 4) < elen {
                return Err(Error::MalformedCommentHeader);
            }
            let entry_bytes = subvec(data, pos + 4, pos + 4 + elen);
            proof {
                assert(d_pos.subrange(4, 4 + elen32 as int) =~= data@.subrange(
                    pos as int + 4,
                    pos as int + 4 + elen as int,
                ));
            }
            let split = crate::comment_list::split_at_eq(&entry_bytes);
            match split {
                None => {
                    return Err(Error::MalformedCommentHeader);
                },
                Some((key, value)) => {
                    if let Err(_) = crate::comment_list::validate_comment_field_name(&key) {
                        return Err(Error::MalformedCommentHeader);
                    }
                    proof {
                        lemma_split_reassemble(entry_bytes@);
                        assert(entry_bytes@ == key@ + seq![61u8] + value@);
                        assert(key@.len() + 1 + value@.len() == elen);
                    }
                    let ghost prev_list = list@;
                    let res = list.push(&key, &value);
                    proof {
                        let e = EntryModel { key: key@, value: value@ };
                        assert(res is Ok);
                        assert(list@ == prev_list.push(e));
                        assert(spec_entry_of_bytes(d_pos.subrange(4, 4 + elen as int)) == Some(
                            e,
                        ));
                        assert(d_pos.skip(4 + elen as int) =~= data@.skip(
                            pos as int + 4 + elen as int,
                        ));
                        match spec_parse_entries(
                            data@.skip(pos as int + 4 + elen as int),
                            (remaining - 1) as nat,
                        ) {
                            Some(rt) => {
                                assert(prev_list + (seq![e] + rt.0) =~= prev_list.push(e) + rt.0);
                            },
                            None => {},
                        }
                    }
                    pos = pos + 4 + elen;
                    k = k + 1;
                },
            }
        }
        let tail = subvec(data, pos, len);
        let ghost m = CommentHeaderModel { vendor: vendor@, entries: list@, tail: tail@ };
        proof {
            assert(data@.subrange(pos as int, len as int) =~= data@.skip(pos as int));
            assert(spec_parse_entries(data@.skip(pos as int), 0) == Some::<
                (Seq<EntryModel>, Seq<u8>),
            >((Seq::<EntryModel>::empty(), data@.skip(pos as int))));
            assert(list@ + Seq::<EntryModel>::empty() =~= list@);
            assert(spec_parse_entries(entries_d, count32 as nat) == Some::<
                (Seq<EntryModel>, Seq<u8>),
            >((list@, tail@)));
            assert(spec_parse_body(body) == Some(m));
        }
        let header = CommentHeader { vendor, comments: list, tail };
        proof {
            assert(header@ == m);
        }
        Ok(Some(header))
    }

    /// The number of comment entries.
    pub fn comment_count(&self) -> (r: usize)
        ensures
            r == self@.entries.len(),
    {
        self.comments.len()
    }

    /// The key and value of the entry at `i`.
    pub fn entry_at(&self, i: usize) -> (r: (&Vec<u8>, &Vec<u8>))
        requires
            i < self@.entries.len(),
        ensures
            r.0@ == self@.entries[i as int].key,
            r.1@ == self@.entries[i as int].value,
    {
        self.comments.entry_at(i)
    }

    /// The value of the first entry whose key equals `key`, ignoring ASCII
    /// case.
    pub fn get_first(&self, key: &Vec<u8>) -> (r: Option<&Vec<u8>>)
        ensures
            match r {
                Some(v) => spec_get_first(self@.entries, key@) == Some(v@),
                None => spec_get_first(self@.entries, key@) is None,
            },
    {
        self.comments.get_first(key)
    }

    /// Removes every entry whose key equals `key`, ignoring ASCII case.
    pub fn remove_all(&mut self, key: &Vec<u8>)
        ensures
            final(self)@.entries == spec_remove_key(old(self)@.entries, key@),
            final(self)@.vendor == old(self)@.vendor,
            final(self)@.tail == old(self)@.tail,
            old(self).wf() ==> final(self).wf(),
    {
        proof {
            crate::comment_list::lemma_remove_key_shrinks(old(self)@.entries, key@);
        }
        self.comments.remove_all(key);
    }

    /// Removes every entry matched by the pattern set.
    pub fn retain_not_matching(&mut self, m: &KeyValueMatch)
        ensures
            final(self)@.entries == spec_retain_not_matching(old(self)@.entries, m),
            final(self)@.vendor == old(self)@.vendor,
            final(self)@.tail == old(self)@.tail,
            old(self).wf() ==> final(self).wf(),
    {
        proof {
            crate::comment_list::lemma_retain_shrinks(old(self)@.entries, m);
        }
        self.comments.retain_not_matching(m);
    }

    /// Removes every comment entry; the vendor string and the framing tail
    /// stay.
    pub fn clear(&mut self)
        ensures
            final(self)@.entries == Seq::<EntryModel>::empty(),
            final(self)@.vendor == old(self)@.vendor,
            final(self)@.tail == old(self)@.tail,
            old(self).wf() ==> final(self).wf(),
    {
        self.comments.clear();
    }

    /// Validates the key and appends the pair at the end of the comment
    /// list.
    pub fn push(&mut self, key: &Vec<u8>, value: &Vec<u8>) -> (r: Result<(), Error>)
        ensures
            final(self)@.vendor == old(self)@.vendor,
            final(self)@.tail == old(self)@.tail,
            old(self).wf() ==> final(self).wf(),
            !valid_key(key@) ==> r == Err::<(), Error>(Error::InvalidCommentFieldName)
                && final(self)@.entries == old(self)@.entries,
            valid_key(key@) && key@.len() + 1 + value@.len() > u32::MAX ==> r == Err::<(), Error>(
                Error::CommentHeaderTooLarge,
            ) && final(self)@.entries == old(self)@.entries,
            valid_key(key@) && key@.len() + 1 + value@.len() <= u32::MAX
                && old(self)@.entries.len() >= u32::MAX ==> r == Err::<(), Error>(
                Error::CommentHeaderTooLarge,
            ) && final(self)@.entries == old(self)@.entries,
            valid_key(key@) && key@.len() + 1 + value@.len() <= u32::MAX
                && old(self)@.entries.len() < u32::MAX ==> r == Ok::<(), Error>(())
                && final(self)@.entries == old(self)@.entries.push(
                EntryModel { key: key@, value: value@ },
            ),
    {
        if let Err(e) = crate::comment_list::validate_comment_field_name(key) {
            return Err(e);
        }
        if value.len() >= u32::MAX as usize || key.len() > u32::MAX as usize - 1 - value.len() {
            return Err(Error::CommentHeaderTooLarge);
        }
        if self.comments.len() >= u32::MAX as usize {
            return Err(Error::CommentHeaderTooLarge);
        }
        self.comments.push(key, value)
    }

    /// Appends every entry of `other` in order, validating each as `push`
    /// does; the first offending entry decides the error and the entries
    /// appended before it stay.
    pub fn extend(&mut self, other: &DiscreteCommentList) -> (r: Result<(), Error>)
        ensures
            final(self)@.vendor == old(self)@.vendor,
            final(self)@.tail == old(self)@.tail,
            old(self).wf() ==> final(self).wf(),
            final(self)@.entries == spec_extend(old(self)@.entries, other@).0,
            match spec_extend(old(self)@.entries, other@).1 {
                None => r == Ok::<(), Error>(()),
                Some(e) => r == Err::<(), Error>(e),
            },
    {
        let n = other.len();
        let mut i: usize = 0;
        proof {
            assert(other@.skip(0) =~= other@);
        }
        while i < n
            invariant
                i <= n,
                n == other@.len(),
                old(self).wf() ==> self.wf(),
                self@.vendor == old(self)@.vendor,
                self@.tail == old(self)@.tail,
                spec_extend(old(self)@.entries, other@) == spec_extend(
                    self@.entries,
                    other@.skip(i as int),
                ),
            decreases n - i,
        {
            let ghost rest = other@.skip(i as int);
            proof {
                assert(rest[0] == other@[i as int]);
                assert(rest.drop_first() =~= other@.skip(i + 1));
            }
            let (key, value) = other.entry_at(i);
            let res = self.push(key, value);
            match res {
                Ok(_) => {},
                Err(e) => {
                    return Err(e);
                },
            }
            i = i + 1;
        }
        proof {
            assert(other@.skip(n as int) =~= Seq::<EntryModel>::empty());
        }
        Ok(())
    }

    /// A stand-alone copy of the comment list.
    pub fn to_discrete_comment_list(&self) -> (r: DiscreteCommentList)
        ensures
            r@ == self@.entries,
    {
        self.comments.clone()
    }
}

/// Parsing a serialized entry list finds the same entries and the same
/// tail.
pub proof fn lemma_parse_serialize_entries(es: Seq<EntryModel>, tail: Seq<u8>)
    requires
        forall|i: int| 0 <= i < es.len() ==> wf_entry(es[i]),
    ensures
        spec_parse_entries(spec_serialize_entries(es) + tail, es.len() as nat) == Some((es, tail)),
    decreases es.len(),
{
    if es.len() == 0 {
        assert(spec_serialize_entries(es) + tail =~= tail);
        assert(es =~= Seq::<EntryModel>::empty());
    } else {
        let e = es[0];
        let eb = spec_entry_bytes(e);
        let d = spec_serialize_entries(es) + tail;
        lemma_parse_serialize_entries(es.drop_first(), tail);
        assert(eb.len() == e.key.len() + 1 + e.value.len());
        assert(d =~= le32_bytes(eb.len() as int) + eb + (spec_serialize_entries(es.drop_first())
            + tail));
        assert(d.subrange(0, 4) =~= le32_bytes(eb.len() as int));
        lemma_le32_roundtrip(eb.len() as int);
        assert(d.subrange(4, 4 + eb.len() as int) =~= eb);
        assert forall|j: int| 0 <= j < e.key.len() implies e.key[j] != 61 by {
            assert(valid_key(e.key));
        }
        lemma_split_of_joined(e.key, e.value);
        assert(spec_entry_of_bytes(eb) == Some(EntryModel { key: e.key, value: e.value }));
        assert(EntryModel { key: e.key, value: e.value } == e);
        assert(d.skip(4 + eb.len() as int) =~= spec_serialize_entries(es.drop_first()) + tail);
        assert(seq![e] + es.drop_first() =~= es);
    }
}

/// A successful entry parse serializes back to the input bytes, finds
/// exactly `count` entries, and every entry is well formed.
pub proof fn lemma_serialize_parse_entries(d: Seq<u8>, count: nat)
    requires
        spec_parse_entries(d, count) is Some,
    ensures
        ({
            let rt = spec_parse_entries(d, count)->Some_0;
            &&& spec_serialize_entries(rt.0) + rt.1 == d
            &&& rt.0.len() == count
            &&& forall|i: int| 0 <= i < rt.0.len() ==> wf_entry(rt.0[i])
        }),
    decreases count,
{
    let rt = spec_parse_entries(d, count)->Some_0;
    if count == 0 {
        assert(spec_serialize_entries(rt.0) + rt.1 =~= d);
    } else {
        let len = le32_val(d.subrange(0, 4));
        assert(0 <= len <= u32::MAX);
        let eb = d.subrange(4, 4 + len);
        let e = spec_entry_of_bytes(eb)->Some_0;
        lemma_serialize_parse_entries(d.skip(4 + len), (count - 1) as nat);
        let rt1 = spec_parse_entries(d.skip(4 + len), (count - 1) as nat)->Some_0;
        lemma_split_reassemble(eb);
        assert(spec_entry_bytes(e) == eb);
        assert(spec_entry_bytes(e).len() == len);
        lemma_le32_bytes_of_val(d.subrange(0, 4));
        assert(wf_entry(e));
        assert(rt.0 == seq![e] + rt1.0);
        assert(rt.1 == rt1.1);
        assert(rt.0[0] == e);
        assert(rt.0.drop_first() =~= rt1.0);
        assert(spec_serialize_entries(rt.0) + rt.1 =~= d.subrange(0, 4) + eb + (
        spec_serialize_entries(rt1.0) + rt1.1));
        assert(d.subrange(0, 4) + eb + d.skip(4 + len) =~= d);
        assert forall|i: int| 0 <= i < rt.0.len() implies wf_entry(rt.0[i]) by {
            if i > 0 {
                assert(rt.0[i] == rt1.0[i - 1]);
            }
        }
    }
}

/// Comment codec round trip: parsing a serialized header gives the header
/// back, byte boundaries, framing tail and all.
#[verifier::rlimit(100)]
pub proof fn lemma_parse_of_serialize(m: CommentHeaderModel)
    requires
        wf_model(m),
    ensures
        spec_has_comment_magic(spec_serialize(m)),
        spec_parse_body(spec_serialize(m).skip(8)) == Some(m),
{
    let d = spec_serialize(m);
    let body = d.skip(8);
    assert(d.subrange(0, 8) =~= comment_magic());
    assert(body =~= le32_bytes(m.vendor.len() as int) + m.vendor + le32_bytes(
        m.entries.len() as int,
    ) + spec_serialize_entries(m.entries) + m.tail);
    assert(body.subrange(0, 4) =~= le32_bytes(m.vendor.len() as int));
    lemma_le32_roundtrip(m.vendor.len() as int);
    assert(body.subrange(4, 4 + m.vendor.len() as int) =~= m.vendor);
    let rest = body.skip(4 + m.vendor.len() as int);
    assert(rest =~= le32_bytes(m.entries.len() as int) + spec_serialize_entries(m.entries)
        + m.tail);
    assert(rest.subrange(0, 4) =~= le32_bytes(m.entries.len() as int));
    lemma_le32_roundtrip(m.entries.len() as int);
    assert(rest.skip(4) =~= spec_serialize_entries(m.entries) + m.tail);
    lemma_parse_serialize_entries(m.entries, m.tail);
    assert(spec_parse_body(body)->Some_0 == m);
}

/// A successful parse serializes back to the original bytes: this is what
/// lets the rewriter detect an unchanged header reliably.
#[verifier::rlimit(100)]
pub proof fn lemma_serialize_of_parse(d: Seq<u8>)
    requires
        spec_has_comment_magic(d),
        spec_parse_body(d.skip(8)) is Some,
    ensures
        spec_serialize(spec_parse_body(d.skip(8))->Some_0) == d,
        wf_model(spec_parse_body(d.skip(8))->Some_0),
{
    let body = d.skip(8);
    let m = spec_parse_body(body)->Some_0;
    let vlen = le32_val(body.subrange(0, 4));
    assert(0 <= vlen <= u32::MAX);
    let rest = body.skip(4 + vlen);
    let count = le32_val(rest.subrange(0, 4));
    assert(0 <= count <= u32::MAX);
    lemma_serialize_parse_entries(rest.skip(4), count as nat);
    let rt = spec_parse_entries(rest.skip(4), count as nat)->Some_0;
    lemma_le32_bytes_of_val(body.subrange(0, 4));
    lemma_le32_bytes_of_val(rest.subrange(0, 4));
    assert(m.vendor == body.subrange(4, 4 + vlen));
    assert(m.vendor.len() == vlen);
    assert(m.entries == rt.0 && m.tail == rt.1);
    assert(m.entries.len() == count);
    assert(le32_bytes(m.vendor.len() as int) == body.subrange(0, 4));
    assert(le32_bytes(m.entries.len() as int) == rest.subrange(0, 4));
    assert(spec_serialize_entries(m.entries) + m.tail == rest.skip(4));
    assert(rest.subrange(0, 4) + rest.skip(4) =~= rest);
    assert(body.subrange(0, 4) + body.subrange(4, 4 + vlen) + rest =~= body);
    assert(comment_magic() + body =~= d);
    assert(spec_serialize(m) =~= comment_magic() + (body.subrange(0, 4) + body.subrange(
        4,
        4 + vlen,
    ) + (rest.subrange(0, 4) + rest.skip(4))));
}

} // verus!
