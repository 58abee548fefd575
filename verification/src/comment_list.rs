//! Ordered lists of `KEY=VALUE` comment pairs with case-insensitive key
//! operations, the in-memory form of the Vorbis-style comment block in an
//! Opus stream.
use vstd::prelude::*;

use crate::bytes::{bytes_equal, clone_bytes, subvec};
use crate::error::Error;

verus! {

/// ASCII lower-casing of one byte; case-insensitivity is ASCII only.
pub open spec fn lower_byte(b: u8) -> u8 {
    if 65 <= b && b <= 90 {
        (b + 32) as u8
    } else {
        b
    }
}

/// Case-insensitive equality of two keys.
pub open spec fn keys_equal_spec(k1: Seq<u8>, k2: Seq<u8>) -> bool {
    k1.len() == k2.len() && (forall|i: int|
        0 <= i < k1.len() ==> lower_byte(k1[i]) == lower_byte(k2[i]))
}

/// A valid comment key: non-empty, printable ASCII, no `=`.
pub open spec fn valid_key(k: Seq<u8>) -> bool {
    k.len() > 0 && (forall|i: int| 0 <= i < k.len() ==> 0x20 <= k[i] <= 0x7e && k[i] != 0x3d)
}

/// The mathematical form of one comment pair.
pub struct EntryModel {
    pub key: Seq<u8>,
    pub value: Seq<u8>,
}

/// Whether an entry can be carried by the comment-header layout, whose
/// per-entry length field is a `u32` counting `KEY=VALUE`.
pub open spec fn entry_fits(e: EntryModel) -> bool {
    e.key.len() + 1 + e.value.len() <= u32::MAX
}

/// A well-formed entry: valid key, representable size.
pub open spec fn wf_entry(e: EntryModel) -> bool {
    valid_key(e.key) && entry_fits(e)
}

/// One `KEY=VALUE` comment pair.
#[derive(Debug, PartialEq)]
pub struct CommentEntry {
    pub key: Vec<u8>,
    pub value: Vec<u8>,
}

impl View for CommentEntry {
    type V = EntryModel;

    open spec fn view(&self) -> EntryModel {
        EntryModel { key: self.key@, value: self.value@ }
    }
}

impl Clone for CommentEntry {
    /// Copies the pair.
    fn clone(&self) -> (r: CommentEntry)
        ensures
            r@ == self@,
    {
        CommentEntry { key: clone_bytes(&self.key), value: clone_bytes(&self.value) }
    }
}

/// The models of a sequence of entries.
pub open spec fn models(s: Seq<CommentEntry>) -> Seq<EntryModel> {
    s.map_values(|e: CommentEntry| e@)
}

/// The value of the first entry whose key matches case-insensitively.
pub open spec fn spec_get_first(s: Seq<EntryModel>, key: Seq<u8>) -> Option<Seq<u8>>
    decreases s.len(),
{
    if s.len() == 0 {
        None
    } else if keys_equal_spec(s[0].key, key) {
        Some(s[0].value)
    } else {
        spec_get_first(s.drop_first(), key)
    }
}

/// Whether some entry's key matches case-insensitively.
pub open spec fn spec_has_key(s: Seq<EntryModel>, key: Seq<u8>) -> bool {
    exists|i: int| 0 <= i < s.len() && keys_equal_spec(s[i].key, key)
}

/// `s` with every case-insensitively matching entry removed; the order of
/// the others is kept.
pub open spec fn spec_remove_key(s: Seq<EntryModel>, key: Seq<u8>) -> Seq<EntryModel>
    decreases s.len(),
{
    if s.len() == 0 {
        Seq::empty()
    } else if keys_equal_spec(s[0].key, key) {
        spec_remove_key(s.drop_first(), key)
    } else {
        seq![s[0]] + spec_remove_key(s.drop_first(), key)
    }
}

/// How many entries match the key case-insensitively.
pub open spec fn spec_count_matching(s: Seq<EntryModel>, key: Seq<u8>) -> nat
    decreases s.len(),
{
    if s.len() == 0 {
        0
    } else if keys_equal_spec(s[0].key, key) {
        1 + spec_count_matching(s.drop_first(), key)
    } else {
        spec_count_matching(s.drop_first(), key)
    }
}

/// `s` after `replace(key, value)`: the first matching entry keeps its own
/// key spelling and takes the new value, later matching entries are dropped,
/// and when nothing matches the pair is appended.
pub open spec fn spec_replace(s: Seq<EntryModel>, key: Seq<u8>, value: Seq<u8>) -> Seq<EntryModel>
    decreases s.len(),
{
    if s.len() == 0 {
        seq![EntryModel { key, value }]
    } else if keys_equal_spec(s[0].key, key) {
        seq![EntryModel { key: s[0].key, value }] + spec_remove_key(s.drop_first(), key)
    } else {
        seq![s[0]] + spec_replace(s.drop_first(), key, value)
    }
}

/// Splits `KEY=VALUE` at the first `=`; the key may not contain one, the
/// value may.
pub open spec fn spec_split_at_eq(s: Seq<u8>) -> Option<(Seq<u8>, Seq<u8>)>
    decreases s.len(),
{
    if s.len() == 0 {
        None
    } else if s[0] == 61 {
        Some((Seq::empty(), s.drop_first()))
    } else {
        match spec_split_at_eq(s.drop_first()) {
            Some(kv) => Some((seq![s[0]] + kv.0, kv.1)),
            None => None,
        }
    }
}

/// When `i` is the position of the first `=`, the split is
/// `(s[..i], s[i+1..])`.
pub proof fn lemma_split_at_first_eq(s: Seq<u8>, i: int)
    requires
        0 <= i < s.len(),
        s[i] == 61,
        forall|j: int| 0 <= j < i ==> s[j] != 61,
    ensures
        spec_split_at_eq(s) == Some((s.take(i), s.skip(i + 1))),
    decreases i,
{
    if i == 0 {
        assert(s.take(0) =~= Seq::<u8>::empty());
        assert(s.skip(1) =~= s.drop_first());
    } else {
        lemma_split_at_first_eq(s.drop_first(), i - 1);
        assert(seq![s[0]] + s.drop_first().take(i - 1) =~= s.take(i));
        assert(s.drop_first().skip(i) =~= s.skip(i + 1));
    }
}

/// With no `=` anywhere, there is no split.
pub proof fn lemma_split_no_eq(s: Seq<u8>)
    requires
        forall|j: int| 0 <= j < s.len() ==> s[j] != 61,
    ensures
        spec_split_at_eq(s) is None,
    decreases s.len(),
{
    if s.len() == 0 {
    } else {
        lemma_split_no_eq(s.drop_first());
    }
}

/// A successful split reassembles to the input, and the key holds no `=`.
pub proof fn lemma_split_reassemble(s: Seq<u8>)
    requires
        spec_split_at_eq(s) is Some,
    ensures
        s == spec_split_at_eq(s)->Some_0.0 + seq![61u8] + spec_split_at_eq(s)->Some_0.1,
        forall|j: int|
            0 <= j < spec_split_at_eq(s)->Some_0.0.len() ==> spec_split_at_eq(s)->Some_0.0[j]
                != 61,
    decreases s.len(),
{
    let kv = spec_split_at_eq(s)->Some_0;
    if s[0] == 61 {
        assert(kv.0 =~= Seq::<u8>::empty());
        assert(kv.0 + seq![61u8] + kv.1 =~= s);
    } else {
        lemma_split_reassemble(s.drop_first());
        let kv1 = spec_split_at_eq(s.drop_first())->Some_0;
        assert(kv.0 == seq![s[0]] + kv1.0);
        assert(kv.0 + seq![61u8] + kv.1 =~= seq![s[0]] + (kv1.0 + seq![61u8] + kv1.1));
        assert(seq![s[0]] + s.drop_first() =~= s);
        assert forall|j: int| 0 <= j < kv.0.len() implies kv.0[j] != 61 by {
            if j > 0 {
                assert(kv.0[j] == kv1.0[j - 1]);
            }
        }
    }
}

/// Splitting `k + "=" + v` at the first `=` gives `(k, v)` back when `k`
/// holds no `=`.
pub proof fn lemma_split_of_joined(k: Seq<u8>, v: Seq<u8>)
    requires
        forall|j: int| 0 <= j < k.len() ==> k[j] != 61,
    ensures
        spec_split_at_eq(k + seq![61u8] + v) == Some((k, v)),
{
    let s = k + seq![61u8] + v;
    lemma_split_at_first_eq(s, k.len() as int);
    assert(s.take(k.len() as int) =~= k);
    assert(s.skip(k.len() as int + 1) =~= v);
}

/// Splits a `KEY=VALUE` byte string at the first `=`.
pub fn split_at_eq(s: &Vec<u8>) -> (r: Option<(Vec<u8>, Vec<u8>)>)
    ensures
        match r {
            Some(kv) => spec_split_at_eq(s@) == Some((kv.0@, kv.1@)),
            None => spec_split_at_eq(s@) is None,
        },
{
    let mut i: usize = 0;
    while i < s.len()
        invariant
            i <= s@.len(),
            forall|j: int| 0 <= j < i ==> s@[j] != 61,
        decreases s@.len() - i,
    {
        if s[i] == 61 {
            let key = subvec(s, 0, i);
            let value = subvec(s, i + 1, s.len());
            proof {
                lemma_split_at_first_eq(s@, i as int);
                assert(s@.subrange(0, i as int) =~= s@.take(i as int));
                assert(s@.subrange(i + 1, s@.len() as int) =~= s@.skip(i + 1));
            }
            return Some((key, value));
        }
        i = i + 1;
    }
    proof {
        lemma_split_no_eq(s@);
    }
    None
}

/// Lower-cases one ASCII byte.
pub fn ascii_lower(b: u8) -> (r: u8)
    ensures
        r == lower_byte(b),
{
    if b >= 65 && b <= 90 {
        b + 32
    } else {
        b
    }
}

/// Checks that a key is a valid comment field name: non-empty, printable
/// ASCII, and free of the `=` separator.
pub fn validate_comment_field_name(key: &Vec<u8>) -> (r: Result<(), Error>)
    ensures
        r is Ok <==> valid_key(key@),
        r is Err ==> r == Err::<(), Error>(Error::InvalidCommentFieldName),
{
    if key.len() == 0 {
        return Err(Error::InvalidCommentFieldName);
    }
    let mut i: usize = 0;
    while i < key.len()
        invariant
            i <= key@.len(),
            forall|j: int| 0 <= j < i ==> 0x20 <= key@[j] <= 0x7e && key@[j] != 0x3d,
        decreases key@.len() - i,
    {
        let b = key[i];
        if b < 0x20 || b > 0x7e || b == 0x3d {
            return Err(Error::InvalidCommentFieldName);
        }
        i = i + 1;
    }
    Ok(())
}

/// A stand-alone ordered list of comment pairs.
#[derive(Debug, PartialEq)]
pub struct DiscreteCommentList {
    comments: Vec<CommentEntry>,
}

impl View for DiscreteCommentList {
    type V = Seq<EntryModel>;

    closed spec fn view(&self) -> Seq<EntryModel> {
        models(self.comments@)
    }
}

impl DiscreteCommentList {
    /// All entries are well formed: valid keys, representable sizes.
    pub open spec fn wf(&self) -> bool {
        forall|i: int| 0 <= i < self@.len() ==> wf_entry(self@[i])
    }

    /// Case-insensitive equality of two keys.
    pub fn keys_equal(k1: &Vec<u8>, k2: &Vec<u8>) -> (r: bool)
        ensures
            r == keys_equal_spec(k1@, k2@),
    {
        if k1.len() != k2.len() {
            return false;
        }
        let mut i: usize = 0;
        while i < k1.len()
            invariant
                i <= k1@.len(),
                k1@.len() == k2@.len(),
                forall|j: int| 0 <= j < i ==> lower_byte(k1@[j]) == lower_byte(k2@[j]),
            decreases k1@.len() - i,
        {
            if ascii_lower(k1[i]) != ascii_lower(k2[i]) {
                return false;
            }
            i = i + 1;
        }
        true
    }

    /// An empty list; the capacity is just a hint.
    pub fn with_capacity(cap: usize) -> (r: DiscreteCommentList)
        ensures
            r@ == Seq::<EntryModel>::empty(),
            r.wf(),
    {
        let r = DiscreteCommentList { comments: Vec::with_capacity(cap) };
        proof {
            assert(r@ =~= Seq::<EntryModel>::empty());
        }
        r
    }

    /// The number of entries.
    pub fn len(&self) -> (r: usize)
        ensures
            r == self@.len(),
    {
        self.comments.len()
    }

    /// Whether the list has no entries.
    pub fn is_empty(&self) -> (r: bool)
        ensures
            r <==> self@.len() == 0,
    {
        self.comments.len() == 0
    }

    /// Removes every entry.
    pub fn clear(&mut self)
        ensures
            final(self)@ == Seq::<EntryModel>::empty(),
            final(self).wf(),
    {
        self.comments.clear();
        proof {
            assert(self@ =~= Seq::<EntryModel>::empty());
        }
    }

    /// The key and value of the entry at `i`.
    pub fn entry_at(&self, i: usize) -> (r: (&Vec<u8>, &Vec<u8>))
        requires
            i < self@.len(),
        ensures
            r.0@ == self@[i as int].key,
            r.1@ == self@[i as int].value,
    {
        let e = &self.comments[i];
        (&e.key, &e.value)
    }

    /// Appends all entries of `other`, leaving it empty.
    pub fn append(&mut self, other: &mut DiscreteCommentList)
        ensures
            final(self)@ == old(self)@ + old(other)@,
            final(other)@ == Seq::<EntryModel>::empty(),
            old(self).wf() && old(other).wf() ==> final(self).wf(),
            final(other).wf(),
    {
        self.comments.append(&mut other.comments);
        proof {
            assert(final(other)@ =~= Seq::<EntryModel>::empty());
            assert(self@ =~= old(self)@ + old(other)@);
        }
    }

    /// Validates the key and appends the pair at the end.
    pub fn push(&mut self, key: &Vec<u8>, value: &Vec<u8>) -> (r: Result<(), Error>)
        ensures
            !valid_key(key@) ==> r == Err::<(), Error>(Error::InvalidCommentFieldName)
                && final(self)@ == old(self)@,
            valid_key(key@) && key@.len() + 1 + value@.len() > u32::MAX ==> r == Err::<(), Error>(
                Error::CommentHeaderTooLarge,
            ) && final(self)@ == old(self)@,
            valid_key(key@) && key@.len() + 1 + value@.len() <= u32::MAX ==> r == Ok::<(), Error>(
                (),
            ) && final(self)@ == old(self)@.push(EntryModel { key: key@, value: value@ }),
            old(self).wf() ==> final(self).wf(),
    {
        if let Err(e) = validate_comment_field_name(key) {
            return Err(e);
        }
        if value.len() >= u32::MAX as usize || key.len() > u32::MAX as usize - 1 - value.len() {
            return Err(Error::CommentHeaderTooLarge);
        }
        let entry = CommentEntry { key: clone_bytes(key), value: clone_bytes(value) };
        self.comments.push(entry);
        proof {
            assert(self@ =~= old(self)@.push(EntryModel { key: key@, value: value@ }));
        }
        Ok(())
    }

    /// The value of the first entry whose key equals `key`, ignoring ASCII
    /// case.
    pub fn get_first(&self, key: &Vec<u8>) -> (r: Option<&Vec<u8>>)
        ensures
            match r {
                Some(v) => spec_get_first(self@, key@) == Some(v@),
                None => spec_get_first(self@, key@) is None,
            },
    {
        let ghost s = self@;
        let mut i: usize = 0;
        proof {
            assert(s.skip(0) =~= s);
        }
        while i < self.comments.len()
            invariant
                i <= s.len(),
                s == self@,
                spec_get_first(s, key@) == spec_get_first(s.skip(i as int), key@),
            decreases s.len() - i,
        {
            let e = &self.comments[i];
            proof {
                assert(s.skip(i as int)[0] == s[i as int]);
                assert(s.skip(i as int).len() == s.len() - i);
            }
            if Self::keys_equal(&e.key, key) {
                return Some(&e.value);
            }
            proof {
                assert(s.skip(i as int).drop_first() =~= s.skip(i + 1));
            }
            i = i + 1;
        }
        proof {
            assert(s.skip(s.len() as int) =~= Seq::<EntryModel>::empty());
        }
        None
    }

    /// Removes every entry whose key equals `key`, ignoring ASCII case; the
    /// order of the remaining entries is kept.
    pub fn remove_all(&mut self, key: &Vec<u8>)
        ensures
            final(self)@ == spec_remove_key(old(self)@, key@),
            old(self).wf() ==> final(self).wf(),
    {
        let ghost s = self@;
        let mut result: Vec<CommentEntry> = Vec::new();
        let mut i: usize = 0;
        proof {
            assert(s.skip(0) =~= s);
            assert(models(result@) =~= Seq::<EntryModel>::empty());
            assert(Seq::<EntryModel>::empty() + spec_remove_key(s, key@) =~= spec_remove_key(
                s,
                key@,
            ));
        }
        while i < self.comments.len()
            invariant
                i <= s.len(),
                s == self@,
                old(self).wf() ==> (forall|j: int|
                    0 <= j < models(result@).len() ==> wf_entry(models(result@)[j])),
                spec_remove_key(s, key@) == models(result@) + spec_remove_key(
                    s.skip(i as int),
                    key@,
                ),
            decreases s.len() - i,
        {
            let e = &self.comments[i];
            proof {
                assert(s.skip(i as int)[0] == s[i as int]);
                assert(s.skip(i as int).len() == s.len() - i);
                assert(s.skip(i as int).drop_first() =~= s.skip(i + 1));
            }
            if !Self::keys_equal(&e.key, key) {
                let ghost prev = models(result@);
                result.push(e.clone());
                proof {
                    assert(models(result@) =~= prev.push(s[i as int]));
                    assert(prev + (seq![s[i as int]] + spec_remove_key(s.skip(i + 1), key@))
                        =~= models(result@) + spec_remove_key(s.skip(i + 1), key@));
                }
            }
            i = i + 1;
        }
        proof {
            assert(s.skip(s.len() as int) =~= Seq::<EntryModel>::empty());
            assert(models(result@) + Seq::<EntryModel>::empty() =~= models(result@));
        }
        self.comments = result;
    }

    /// Replaces the value of the first entry matching `key` (keeping that
    /// entry's own spelling of the key), drops later matching duplicates,
    /// and appends the pair when nothing matches.
    pub fn replace(&mut self, key: &Vec<u8>, value: &Vec<u8>) -> (r: Result<(), Error>)
        ensures
            key@.len() + 1 + value@.len() > u32::MAX ==> r == Err::<(), Error>(
                Error::CommentHeaderTooLarge,
            ) && final(self)@ == old(self)@,
            key@.len() + 1 + value@.len() <= u32::MAX && (spec_has_key(old(self)@, key@)
                || valid_key(key@)) ==> r == Ok::<(), Error>(()) && final(self)@ == spec_replace(
                old(self)@,
                key@,
                value@,
            ),
            key@.len() + 1 + value@.len() <= u32::MAX && !spec_has_key(old(self)@, key@)
                && !valid_key(key@) ==> r == Err::<(), Error>(Error::InvalidCommentFieldName)
                && final(self)@ == old(self)@,
            old(self).wf() ==> final(self).wf(),
    {
        if value.len() >= u32::MAX as usize || key.len() > u32::MAX as usize - 1 - value.len() {
            return Err(Error::CommentHeaderTooLarge);
        }
        let ghost s = self@;
        let mut result: Vec<CommentEntry> = Vec::new();
        let mut found = false;
        let mut i: usize = 0;
        proof {
            assert(s.skip(0) =~= s);
            assert(Seq::<EntryModel>::empty() + spec_replace(s, key@, value@) =~= spec_replace(
                s,
                key@,
                value@,
            ));
        }
        while i < self.comments.len()
            invariant
                i <= s.len(),
                s == self@,
                key@.len() + 1 + value@.len() <= u32::MAX,
                old(self).wf() ==> (forall|j: int|
                    0 <= j < models(result@).len() ==> wf_entry(models(result@)[j])),
                !found ==> spec_replace(s, key@, value@) == models(result@) + spec_replace(
                    s.skip(i as int),
                    key@,
                    value@,
                ),
                !found ==> (forall|j: int| 0 <= j < i ==> !keys_equal_spec(s[j].key, key@)),
                found ==> spec_replace(s, key@, value@) == models(result@) + spec_remove_key(
                    s.skip(i as int),
                    key@,
                ),
                found ==> spec_has_key(s, key@),
            decreases s.len() - i,
        {
            let e = &self.comments[i];
            proof {
                assert(s.skip(i as int)[0] == s[i as int]);
                assert(s.skip(i as int).len() == s.len() - i);
                assert(s.skip(i as int).drop_first() =~= s.skip(i + 1));
            }
            let matches = Self::keys_equal(&e.key, key);
            if matches && !found {
                let ghost prev = models(result@);
                result.push(CommentEntry { key: clone_bytes(&e.key), value: clone_bytes(value) });
                found = true;
                proof {
                    let new_entry = EntryModel { key: s[i as int].key, value: value@ };
                    assert(models(result@) =~= prev.push(new_entry));
                    assert(keys_equal_spec(s[i as int].key, key@) && valid_key(s[i as int].key)
                        ==> wf_entry(new_entry));
                    assert(prev + (seq![new_entry] + spec_remove_key(s.skip(i + 1), key@))
                        =~= models(result@) + spec_remove_key(s.skip(i + 1), key@));
                    assert(keys_equal_spec(s[i as int].key, key@));
                }
            } else if !matches {
                let ghost prev = models(result@);
                result.push(e.clone());
                proof {
                    assert(models(result@) =~= prev.push(s[i as int]));
                    if found {
                        assert(prev + (seq![s[i as int]] + spec_remove_key(s.skip(i + 1), key@))
                            =~= models(result@) + spec_remove_key(s.skip(i + 1), key@));
                    } else {
                        assert(prev + (seq![s[i as int]] + spec_replace(
                            s.skip(i + 1),
                            key@,
                            value@,
                        )) =~= models(result@) + spec_replace(s.skip(i + 1), key@, value@));
                    }
                }
            }
            i = i + 1;
        }
        proof {
            assert(s.skip(s.len() as int) =~= Seq::<EntryModel>::empty());
        }
        if found {
            proof {
                assert(spec_remove_key(Seq::<EntryModel>::empty(), key@)
                    =~= Seq::<EntryModel>::empty());
                assert(models(result@) + Seq::<EntryModel>::empty() =~= models(result@));
            }
            self.comments = result;
            Ok(())
        } else {
            proof {
                assert(!spec_has_key(s, key@));
            }
            if let Err(e) = validate_comment_field_name(key) {
                return Err(e);
            }
            let ghost prev = models(result@);
            result.push(CommentEntry { key: clone_bytes(key), value: clone_bytes(value) });
            proof {
                let new_entry = EntryModel { key: key@, value: value@ };
                assert(models(result@) =~= prev.push(new_entry));
                assert(spec_replace(Seq::<EntryModel>::empty(), key@, value@)
                    =~= seq![new_entry]);
                assert(prev + seq![new_entry] =~= models(result@));
            }
            self.comments = result;
            Ok(())
        }
    }

    /// Removes every entry matched by the pattern set; the order of the
    /// others is kept.
    pub fn retain_not_matching(&mut self, m: &KeyValueMatch)
        ensures
            final(self)@ == spec_retain_not_matching(old(self)@, m),
            old(self).wf() ==> final(self).wf(),
    {
        let ghost s = self@;
        let mut result: Vec<CommentEntry> = Vec::new();
        let mut i: usize = 0;
        proof {
            assert(s.skip(0) =~= s);
            assert(Seq::<EntryModel>::empty() + spec_retain_not_matching(s, m)
                =~= spec_retain_not_matching(s, m));
        }
        while i < self.comments.len()
            invariant
                i <= s.len(),
                s == self@,
                old(self).wf() ==> (forall|j: int|
                    0 <= j < models(result@).len() ==> wf_entry(models(result@)[j])),
                spec_retain_not_matching(s, m) == models(result@) + spec_retain_not_matching(
                    s.skip(i as int),
                    m,
                ),
            decreases s.len() - i,
        {
            let e = &self.comments[i];
            proof {
                assert(s.skip(i as int)[0] == s[i as int]);
                assert(s.skip(i as int).len() == s.len() - i);
                assert(s.skip(i as int).drop_first() =~= s.skip(i + 1));
            }
            if !m.matches(&e.key, &e.value) {
                let ghost prev = models(result@);
                result.push(e.clone());
                proof {
                    assert(models(result@) =~= prev.push(s[i as int]));
                    assert(prev + (seq![s[i as int]] + spec_retain_not_matching(
                        s.skip(i + 1),
                        m,
                    )) =~= models(result@) + spec_retain_not_matching(s.skip(i + 1), m));
                }
            }
            i = i + 1;
        }
        proof {
            assert(s.skip(s.len() as int) =~= Seq::<EntryModel>::empty());
            assert(models(result@) + Seq::<EntryModel>::empty() =~= models(result@));
        }
        self.comments = result;
    }
}

impl Clone for DiscreteCommentList {
    /// Copies the list entry by entry.
    fn clone(&self) -> (r: DiscreteCommentList)
        ensures
            r@ == self@,
    {
        let ghost s = self@;
        let mut result: Vec<CommentEntry> = Vec::new();
        proof {
            assert(models(result@) =~= s.take(0));
        }
        let mut i: usize = 0;
        while i < self.comments.len()
            invariant
                i <= s.len(),
                s == self@,
                models(result@) == s.take(i as int),
            decreases s.len() - i,
        {
            let ghost prev = models(result@);
            result.push(self.comments[i].clone());
            proof {
                assert(models(result@) =~= prev.push(s[i as int]));
                assert(s.take(i + 1) =~= s.take(i as int).push(s[i as int]));
            }
            i = i + 1;
        }
        proof {
            assert(s.take(s.len() as int) =~= s);
        }
        DiscreteCommentList { comments: result }
    }
}

impl Default for DiscreteCommentList {
    /// An empty list.
    fn default() -> (r: DiscreteCommentList)
        ensures
            r@ == Seq::<EntryModel>::empty(),
            r.wf(),
    {
        let r = DiscreteCommentList { comments: Vec::new() };
        proof {
            assert(r@ =~= Seq::<EntryModel>::empty());
        }
        r
    }
}

/// A match over comment values: everything, or one of a set of values
/// (compared exactly, case-sensitively).
#[derive(Debug)]
pub enum ValueMatch {
    All,
    ContainedIn(Vec<Vec<u8>>),
}

impl ValueMatch {
    /// Whether the match accepts value `v`.
    pub open spec fn spec_matches(&self, v: Seq<u8>) -> bool {
        match self {
            ValueMatch::All => true,
            ValueMatch::ContainedIn(vals) => exists|i: int|
                0 <= i < vals@.len() && vals@[i]@ == v,
        }
    }

    /// A match accepting exactly one value.
    pub fn singleton(value: Vec<u8>) -> (r: ValueMatch)
        ensures
            forall|v: Seq<u8>| #[trigger] r.spec_matches(v) <==> v == value@,
    {
        let ghost value_view = value@;
        let mut vals: Vec<Vec<u8>> = Vec::new();
        vals.push(value);
        let r = ValueMatch::ContainedIn(vals);
        proof {
            assert(r->ContainedIn_0@.len() == 1);
            assert(r->ContainedIn_0@[0]@ == value_view);
            assert forall|v: Seq<u8>| #[trigger] r.spec_matches(v) <==> v == value_view by {
                if v == value_view {
                    assert(exists|i: int|
                        0 <= i < r->ContainedIn_0@.len() && r->ContainedIn_0@[i]@ == v);
                }
                if r.spec_matches(v) {
                    let i = choose|i: int|
                        0 <= i < r->ContainedIn_0@.len() && r->ContainedIn_0@[i]@ == v;
                    assert(i == 0);
                }
            }
        }
        r
    }

    /// Whether `value` is accepted.
    pub fn matches(&self, value: &Vec<u8>) -> (r: bool)
        ensures
            r == self.spec_matches(value@),
    {
        match self {
            ValueMatch::All => true,
            ValueMatch::ContainedIn(vals) => {
                let mut i: usize = 0;
                while i < vals.len()
                    invariant
                        i <= vals@.len(),
                        forall|j: int| 0 <= j < i ==> vals@[j]@ != value@,
                    decreases vals@.len() - i,
                {
                    if bytes_equal(&vals[i], value) {
                        return true;
                    }
                    i = i + 1;
                }
                false
            },
        }
    }

    /// Widens this match to also accept everything `rhs` accepts.
    pub fn union_with(&mut self, rhs: ValueMatch)
        ensures
            forall|v: Seq<u8>|
                #[trigger] final(self).spec_matches(v) <==> old(self).spec_matches(v)
                    || rhs.spec_matches(v),
    {
        let ghost rhs_snap = rhs;
        let mut tmp = ValueMatch::All;
        core::mem::swap(self, &mut tmp);
        let combined = match (tmp, rhs) {
            (ValueMatch::ContainedIn(mut left), ValueMatch::ContainedIn(mut right)) => {
                let ghost orig_left = left;
                let ghost orig_right = right;
                proof {
                    assert(*old(self) == ValueMatch::ContainedIn(orig_left));
                    assert(rhs_snap == ValueMatch::ContainedIn(orig_right));
                }
                left.append(&mut right);
                let result = ValueMatch::ContainedIn(left);
                proof {
                    let lv = orig_left@;
                    let rv = orig_right@;
                    assert(old(self)->ContainedIn_0 == orig_left);
                    assert(rhs_snap->ContainedIn_0 == orig_right);
                    assert(result->ContainedIn_0@ == lv + rv);
                    assert forall|v: Seq<u8>|
                        #[trigger] result.spec_matches(v) <==> old(self).spec_matches(v)
                            || rhs_snap.spec_matches(v) by {
                        if result.spec_matches(v) {
                            let i = choose|i: int|
                                0 <= i < result->ContainedIn_0@.len()
                                    && result->ContainedIn_0@[i]@ == v;
                            if i < lv.len() {
                                assert(old(self)->ContainedIn_0@[i]@ == v);
                                assert(exists|j: int|
                                    0 <= j < old(self)->ContainedIn_0@.len() && old(
                                        self,
                                    )->ContainedIn_0@[j]@ == v);
                            } else {
                                assert(rhs_snap->ContainedIn_0@[i - lv.len()]@ == v);
                                assert(exists|j: int|
                                    0 <= j < rhs_snap->ContainedIn_0@.len()
                                        && rhs_snap->ContainedIn_0@[j]@ == v);
                            }
                        }
                        if old(self).spec_matches(v) {
                            let i = choose|i: int|
                                0 <= i < old(self)->ContainedIn_0@.len() && old(
                                    self,
                                )->ContainedIn_0@[i]@ == v;
                            assert(result->ContainedIn_0@[i]@ == v);
                            assert(exists|j: int|
                                0 <= j < result->ContainedIn_0@.len()
                                    && result->ContainedIn_0@[j]@ == v);
                        }
                        if rhs_snap.spec_matches(v) {
                            let i = choose|i: int|
                                0 <= i < rhs_snap->ContainedIn_0@.len()
                                    && rhs_snap->ContainedIn_0@[i]@ == v;
                            assert(result->ContainedIn_0@[lv.len() + i]@ == v);
                            assert(exists|j: int|
                                0 <= j < result->ContainedIn_0@.len()
                                    && result->ContainedIn_0@[j]@ == v);
                        }
                    }
                }
                result
            },
            _ => ValueMatch::All,
        };
        *self = combined;
    }
}

impl Default for ValueMatch {
    /// A match accepting nothing.
    fn default() -> (r: ValueMatch)
        ensures
            forall|v: Seq<u8>| !(#[trigger] r.spec_matches(v)),
    {
        ValueMatch::ContainedIn(Vec::new())
    }
}

/// A set of `(key, value-match)` delete patterns: an entry matches when some
/// pattern's key equals its key ignoring ASCII case and the pattern's value
/// match accepts its value.
#[derive(Debug, Default)]
pub struct KeyValueMatch {
    pub keys: Vec<(Vec<u8>, ValueMatch)>,
}

impl KeyValueMatch {
    /// Whether the pair `(k, v)` is matched by some pattern.
    pub open spec fn spec_matches(&self, k: Seq<u8>, v: Seq<u8>) -> bool {
        exists|i: int|
            0 <= i < self.keys@.len() && keys_equal_spec(self.keys@[i].0@, k)
                && self.keys@[i].1.spec_matches(v)
    }

    /// An empty pattern set, matching nothing.
    pub fn new() -> (r: KeyValueMatch)
        ensures
            forall|k: Seq<u8>, v: Seq<u8>| !(#[trigger] r.spec_matches(k, v)),
    {
        KeyValueMatch { keys: Vec::new() }
    }

    /// Adds one pattern.
    pub fn add(&mut self, key: Vec<u8>, value: ValueMatch)
        ensures
            forall|k: Seq<u8>, v: Seq<u8>|
                #[trigger] final(self).spec_matches(k, v) <==> old(self).spec_matches(k, v) || (
                keys_equal_spec(key@, k) && value.spec_matches(v)),
    {
        let ghost key_view = key@;
        let ghost value_snap = value;
        self.keys.push((key, value));
        proof {
            assert(self.keys@.len() == old(self).keys@.len() + 1);
            assert(self.keys@[self.keys@.len() - 1].0@ == key_view);
            assert(self.keys@[self.keys@.len() - 1].1 == value_snap);
            assert forall|k: Seq<u8>, v: Seq<u8>|
                #[trigger] self.spec_matches(k, v) <==> old(self).spec_matches(k, v) || (
                keys_equal_spec(key_view, k) && value_snap.spec_matches(v)) by {
                if self.spec_matches(k, v) {
                    let i = choose|i: int|
                        0 <= i < self.keys@.len() && keys_equal_spec(self.keys@[i].0@, k)
                            && self.keys@[i].1.spec_matches(v);
                    if i < old(self).keys@.len() {
                        assert(old(self).keys@[i] == self.keys@[i]);
                        assert(exists|j: int|
                            0 <= j < old(self).keys@.len() && keys_equal_spec(
                                old(self).keys@[j].0@,
                                k,
                            ) && old(self).keys@[j].1.spec_matches(v));
                    }
                }
                if old(self).spec_matches(k, v) {
                    let i = choose|i: int|
                        0 <= i < old(self).keys@.len() && keys_equal_spec(old(self).keys@[i].0@, k)
                            && old(self).keys@[i].1.spec_matches(v);
                    assert(self.keys@[i] == old(self).keys@[i]);
                    assert(exists|j: int|
                        0 <= j < self.keys@.len() && keys_equal_spec(self.keys@[j].0@, k)
                            && self.keys@[j].1.spec_matches(v));
                }
                if keys_equal_spec(key_view, k) && value_snap.spec_matches(v) {
                    let n = self.keys@.len() - 1;
                    assert(0 <= n < self.keys@.len() && keys_equal_spec(self.keys@[n].0@, k)
                        && self.keys@[n].1.spec_matches(v));
                    assert(exists|j: int|
                        0 <= j < self.keys@.len() && keys_equal_spec(self.keys@[j].0@, k)
                            && self.keys@[j].1.spec_matches(v));
                }
            }
        }
    }

    /// Whether `(key, value)` is matched by some pattern.
    pub fn matches(&self, key: &Vec<u8>, value: &Vec<u8>) -> (r: bool)
        ensures
            r == self.spec_matches(key@, value@),
    {
        let mut i: usize = 0;
        while i < self.keys.len()
            invariant
                i <= self.keys@.len(),
                forall|j: int|
                    0 <= j < i ==> !(keys_equal_spec(self.keys@[j].0@, key@)
                        && self.keys@[j].1.spec_matches(value@)),
            decreases self.keys@.len() - i,
        {
            let entry = &self.keys[i];
            if DiscreteCommentList::keys_equal(&entry.0, key) && entry.1.matches(value) {
                return true;
            }
            i = i + 1;
        }
        false
    }
}

/// `s` with every entry matched by the pattern set removed; the order of the
/// others is kept.
pub open spec fn spec_retain_not_matching(s: Seq<EntryModel>, m: &KeyValueMatch) -> Seq<EntryModel>
    decreases s.len(),
{
    if s.len() == 0 {
        Seq::empty()
    } else if m.spec_matches(s[0].key, s[0].value) {
        spec_retain_not_matching(s.drop_first(), m)
    } else {
        seq![s[0]] + spec_retain_not_matching(s.drop_first(), m)
    }
}

/// After `spec_retain_not_matching`, no remaining entry is matched.
pub proof fn lemma_retain_removes_matching(s: Seq<EntryModel>, m: &KeyValueMatch)
    ensures
        forall|i: int|
            0 <= i < spec_retain_not_matching(s, m).len() ==> !m.spec_matches(
                spec_retain_not_matching(s, m)[i].key,
                spec_retain_not_matching(s, m)[i].value,
            ),
    decreases s.len(),
{
    if s.len() == 0 {
    } else {
        lemma_retain_removes_matching(s.drop_first(), m);
        let r = spec_retain_not_matching(s, m);
        let rr = spec_retain_not_matching(s.drop_first(), m);
        if m.spec_matches(s[0].key, s[0].value) {
            assert(r == rr);
            assert forall|i: int|
                0 <= i < r.len() implies !m.spec_matches(r[i].key, r[i].value) by {
                assert(r[i] == rr[i]);
            }
        } else {
            assert(r == seq![s[0]] + rr);
            assert forall|i: int|
                0 <= i < r.len() implies !m.spec_matches(r[i].key, r[i].value) by {
                if i == 0 {
                    assert(r[0] == s[0]);
                } else {
                    assert(r[i] == rr[i - 1]);
                }
            }
        }
    }
}

/// After `replace(key, value)`: looking the key up finds the new value,
/// exactly one entry matches the key, and the non-matching entries stand
/// unchanged in their order.
pub proof fn lemma_replace_semantics(s: Seq<EntryModel>, key: Seq<u8>, value: Seq<u8>)
    ensures
        spec_get_first(spec_replace(s, key, value), key) == Some(value),
        spec_count_matching(spec_replace(s, key, value), key) == 1,
        spec_remove_key(spec_replace(s, key, value), key) == spec_remove_key(s, key),
    decreases s.len(),
{
    let r = spec_replace(s, key, value);
    assert(spec_count_matching(Seq::<EntryModel>::empty(), key) == 0);
    assert(spec_remove_key(Seq::<EntryModel>::empty(), key) =~= Seq::<EntryModel>::empty());
    if s.len() == 0 {
        assert(keys_equal_spec(key, key));
        assert(r == seq![EntryModel { key, value }]);
        assert(r.drop_first() =~= Seq::<EntryModel>::empty());
        assert(spec_count_matching(r, key) == 1 + spec_count_matching(r.drop_first(), key));
        assert(spec_remove_key(r, key) == spec_remove_key(r.drop_first(), key));
        assert(spec_remove_key(s, key) =~= Seq::<EntryModel>::empty());
    } else if keys_equal_spec(s[0].key, key) {
        lemma_remove_key_removes(s.drop_first(), key);
        lemma_remove_key_no_match(spec_remove_key(s.drop_first(), key), key);
        assert(r.drop_first() =~= spec_remove_key(s.drop_first(), key));
        assert(keys_equal_spec(r[0].key, key));
        assert(spec_count_matching(r, key) == 1 + spec_count_matching(r.drop_first(), key));
        assert(spec_remove_key(r, key) == spec_remove_key(r.drop_first(), key));
    } else {
        lemma_replace_semantics(s.drop_first(), key, value);
        assert(r[0] == s[0]);
        assert(r.drop_first() =~= spec_replace(s.drop_first(), key, value));
        assert(spec_count_matching(r, key) == spec_count_matching(r.drop_first(), key));
        assert(spec_remove_key(r, key) == seq![r[0]] + spec_remove_key(r.drop_first(), key));
        assert(spec_remove_key(s, key) == seq![s[0]] + spec_remove_key(s.drop_first(), key));
    }
}

/// Removing a key twice is the same as removing it once: after
/// `spec_remove_key` nothing matches, so counting and a second removal see
/// nothing.
pub proof fn lemma_remove_key_no_match(s: Seq<EntryModel>, key: Seq<u8>)
    requires
        forall|i: int| 0 <= i < s.len() ==> !keys_equal_spec(s[i].key, key),
    ensures
        spec_remove_key(s, key) == s,
        spec_count_matching(s, key) == 0,
        spec_get_first(s, key) is None,
    decreases s.len(),
{
    if s.len() == 0 {
        assert(spec_remove_key(s, key) =~= s);
    } else {
        lemma_remove_key_no_match(s.drop_first(), key);
        assert(seq![s[0]] + s.drop_first() =~= s);
    }
}

/// No entry of `spec_remove_key(s, key)` matches `key`.
pub proof fn lemma_remove_key_removes(s: Seq<EntryModel>, key: Seq<u8>)
    ensures
        forall|i: int|
            0 <= i < spec_remove_key(s, key).len() ==> !keys_equal_spec(
                spec_remove_key(s, key)[i].key,
                key,
            ),
    decreases s.len(),
{
    if s.len() == 0 {
    } else {
        lemma_remove_key_removes(s.drop_first(), key);
        let r = spec_remove_key(s, key);
        let rr = spec_remove_key(s.drop_first(), key);
        if keys_equal_spec(s[0].key, key) {
            assert(r == rr);
            assert forall|i: int| 0 <= i < r.len() implies !keys_equal_spec(r[i].key, key) by {
                assert(r[i] == rr[i]);
            }
        } else {
            assert(r == seq![s[0]] + rr);
            assert forall|i: int| 0 <= i < r.len() implies !keys_equal_spec(r[i].key, key) by {
                if i == 0 {
                    assert(r[0] == s[0]);
                } else {
                    assert(r[i] == rr[i - 1]);
                }
            }
        }
    }
}

/// Removing a key never grows the list.
pub proof fn lemma_remove_key_shrinks(s: Seq<EntryModel>, key: Seq<u8>)
    ensures
        spec_remove_key(s, key).len() <= s.len(),
    decreases s.len(),
{
    if s.len() == 0 {
    } else {
        lemma_remove_key_shrinks(s.drop_first(), key);
    }
}

/// Retaining never grows the list.
pub proof fn lemma_retain_shrinks(s: Seq<EntryModel>, m: &KeyValueMatch)
    ensures
        spec_retain_not_matching(s, m).len() <= s.len(),
    decreases s.len(),
{
    if s.len() == 0 {
    } else {
        lemma_retain_shrinks(s.drop_first(), m);
    }
}

/// Removing a key distributes over concatenation.
pub proof fn lemma_remove_key_concat(a: Seq<EntryModel>, b: Seq<EntryModel>, key: Seq<u8>)
    ensures
        spec_remove_key(a + b, key) == spec_remove_key(a, key) + spec_remove_key(b, key),
    decreases a.len(),
{
    if a.len() == 0 {
        assert(a + b =~= b);
        assert(spec_remove_key(a, key) + spec_remove_key(b, key) =~= spec_remove_key(b, key));
    } else {
        lemma_remove_key_concat(a.drop_first(), b, key);
        assert((a + b).drop_first() =~= a.drop_first() + b);
        assert((a + b)[0] == a[0]);
        if !keys_equal_spec(a[0].key, key) {
            assert(spec_remove_key(a, key) + spec_remove_key(b, key) =~= seq![a[0]] + (
            spec_remove_key(a.drop_first(), key) + spec_remove_key(b, key)));
        }
    }
}

/// Removing one key cannot introduce matches for another.
pub proof fn lemma_remove_key_preserves_no_match(s: Seq<EntryModel>, k1: Seq<u8>, k2: Seq<u8>)
    requires
        forall|i: int| 0 <= i < s.len() ==> !keys_equal_spec(s[i].key, k1),
    ensures
        forall|i: int|
            0 <= i < spec_remove_key(s, k2).len() ==> !keys_equal_spec(
                spec_remove_key(s, k2)[i].key,
                k1,
            ),
    decreases s.len(),
{
    if s.len() == 0 {
    } else {
        lemma_remove_key_preserves_no_match(s.drop_first(), k1, k2);
        let r = spec_remove_key(s, k2);
        let rr = spec_remove_key(s.drop_first(), k2);
        if keys_equal_spec(s[0].key, k2) {
            assert(r == rr);
            assert forall|i: int| 0 <= i < r.len() implies !keys_equal_spec(r[i].key, k1) by {
                assert(r[i] == rr[i]);
            }
        } else {
            assert(r == seq![s[0]] + rr);
            assert forall|i: int| 0 <= i < r.len() implies !keys_equal_spec(r[i].key, k1) by {
                if i == 0 {
                    assert(r[0] == s[0]);
                } else {
                    assert(r[i] == rr[i - 1]);
                }
            }
        }
    }
}

/// Entries with well-formed contents stay well formed under removal.
pub proof fn lemma_remove_key_preserves_wf(s: Seq<EntryModel>, key: Seq<u8>)
    requires
        forall|i: int| 0 <= i < s.len() ==> wf_entry(s[i]),
    ensures
        forall|i: int|
            0 <= i < spec_remove_key(s, key).len() ==> wf_entry(spec_remove_key(s, key)[i]),
    decreases s.len(),
{
    if s.len() == 0 {
    } else {
        lemma_remove_key_preserves_wf(s.drop_first(), key);
        let r = spec_remove_key(s, key);
        let rr = spec_remove_key(s.drop_first(), key);
        if keys_equal_spec(s[0].key, key) {
            assert(r == rr);
            assert forall|i: int| 0 <= i < r.len() implies wf_entry(r[i]) by {
                assert(r[i] == rr[i]);
            }
        } else {
            assert(r == seq![s[0]] + rr);
            assert forall|i: int| 0 <= i < r.len() implies wf_entry(r[i]) by {
                if i == 0 {
                    assert(r[0] == s[0]);
                } else {
                    assert(r[i] == rr[i - 1]);
                }
            }
        }
    }
}

/// Case-insensitive lookup: two keys equal up to ASCII case find the same
/// (first-inserted) entry.
pub proof fn lemma_get_first_case_insensitive(s: Seq<EntryModel>, k1: Seq<u8>, k2: Seq<u8>)
    requires
        keys_equal_spec(k1, k2),
    ensures
        spec_get_first(s, k1) == spec_get_first(s, k2),
    decreases s.len(),
{
    if s.len() == 0 {
    } else {
        assert(keys_equal_spec(s[0].key, k1) <==> keys_equal_spec(s[0].key, k2));
        lemma_get_first_case_insensitive(s.drop_first(), k1, k2);
    }
}

} // verus!
