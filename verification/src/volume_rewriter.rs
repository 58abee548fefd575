//! The volume transform: given loudness measurements and a target, it sets
//! the Opus output gain and rewrites the R128 track and album tags, all in
//! Q7.8 fixed point.
use vstd::prelude::*;

use crate::comment_header::{CommentHeader, CommentHeaderModel};
use crate::comment_list::{spec_get_first, spec_remove_key, EntryModel};
use crate::error::Error;
use crate::fixed_point_gain::{
    pow10, spec_decimal, spec_digits, spec_parse_decimal, FixedPointGain,
};
use crate::header_rewriter::{self, HeaderRewrite};
use crate::opus_header::{spec_output_gain_of, spec_with_output_gain, OpusHeader};

verus! {

/// The EBU R 128 reference loudness, -23 LUFS, in Q7.8 units.
pub const R128_LUFS: i16 = -5888;

/// The loudness used for ReplayGain, -18 LUFS, in Q7.8 units. This is
/// approximate, since ReplayGain does not use LUFS.
pub const REPLAY_GAIN_LUFS: i16 = -4608;

/// The bytes of the tag name `R128_TRACK_GAIN`.
pub open spec fn spec_track_gain_key() -> Seq<u8> {
    seq![82u8, 49, 50, 56, 95, 84, 82, 65, 67, 75, 95, 71, 65, 73, 78]
}

/// The bytes of the tag name `R128_ALBUM_GAIN`.
pub open spec fn spec_album_gain_key() -> Seq<u8> {
    seq![82u8, 49, 50, 56, 95, 65, 76, 66, 85, 77, 95, 71, 65, 73, 78]
}

/// The tag name `R128_TRACK_GAIN`.
pub fn tag_track_gain() -> (r: Vec<u8>)
    ensures
        r@ == spec_track_gain_key(),
{
    let mut v: Vec<u8> = Vec::new();
    v.push(82);
    v.push(49);
    v.push(50);
    v.push(56);
    v.push(95);
    v.push(84);
    v.push(82);
    v.push(65);
    v.push(67);
    v.push(75);
    v.push(95);
    v.push(71);
    v.push(65);
    v.push(73);
    v.push(78);
    proof {
        assert(v@ =~= spec_track_gain_key());
    }
    v
}

/// The tag name `R128_ALBUM_GAIN`.
pub fn tag_album_gain() -> (r: Vec<u8>)
    ensures
        r@ == spec_album_gain_key(),
{
    let mut v: Vec<u8> = Vec::new();
    v.push(82);
    v.push(49);
    v.push(50);
    v.push(56);
    v.push(95);
    v.push(65);
    v.push(76);
    v.push(66);
    v.push(85);
    v.push(77);
    v.push(95);
    v.push(71);
    v.push(65);
    v.push(73);
    v.push(78);
    proof {
        assert(v@ =~= spec_album_gain_key());
    }
    v
}

/// The target for the output gain.
#[derive(Clone, Copy, Debug, PartialEq, Eq, Structural)]
pub enum VolumeTarget {
    /// Normalize playback to the given loudness, in Q7.8 LUFS.
    LUFS(FixedPointGain),
    /// Set the output gain to 0 dB.
    ZeroGain,
    /// Leave the output gain alone and write no tags (clear mode).
    NoChange,
}

/// Which measured volume the output gain computation uses.
#[derive(Clone, Copy, Debug, PartialEq, Eq, Structural)]
pub enum OutputGainMode {
    Album,
    Track,
}

/// The gains a stream carries: the output gain and the two R128 tags.
#[derive(Clone, Copy, Debug, PartialEq, Eq)]
pub struct OpusGains {
    pub output: FixedPointGain,
    pub track_r128: Option<FixedPointGain>,
    pub album_r128: Option<FixedPointGain>,
}

impl View for OpusGains {
    type V = OpusGains;

    open spec fn view(&self) -> OpusGains {
        *self
    }
}

/// Configuration for the volume transform. The measured volumes are in
/// Q7.8 LUFS, measured ignoring the stream's current output gain, and
/// rounded half to even.
#[derive(Clone, Copy, Debug)]
pub struct VolumeRewriterConfig {
    /// What to set the output gain to.
    pub output_gain: VolumeTarget,
    /// Whether the gain targets track or album loudness.
    pub output_gain_mode: OutputGainMode,
    /// The measured loudness of this track.
    pub track_volume: Option<FixedPointGain>,
    /// The gated mean loudness of the whole album, when in album mode.
    pub album_volume: Option<FixedPointGain>,
}

impl VolumeRewriterConfig {
    /// The measured volume the output gain computation uses.
    pub open spec fn spec_volume_for_gain(&self) -> Option<FixedPointGain> {
        match self.output_gain_mode {
            OutputGainMode::Album => self.album_volume,
            OutputGainMode::Track => self.track_volume,
        }
    }
}

/// The gain a tag carries, read permissively; an absent or unreadable tag
/// reads as `None`.
pub open spec fn spec_tag_gain(entries: Seq<EntryModel>, key: Seq<u8>) -> Option<FixedPointGain> {
    match spec_get_first(entries, key) {
        None => None,
        Some(v) => match spec_parse_decimal(v) {
            None => None,
            Some(x) => Some(FixedPointGain { value: x as i16 }),
        },
    }
}

/// The comment entries with both R128 tags removed.
pub open spec fn spec_base_entries(comment: CommentHeaderModel) -> Seq<EntryModel> {
    spec_remove_key(spec_remove_key(comment.entries, spec_track_gain_key()), spec_album_gain_key())
}

/// The volume transform; its summary is the stream's gains.
#[derive(Clone, Copy, Debug)]
pub struct VolumeHeaderRewrite {
    pub config: VolumeRewriterConfig,
}

impl VolumeHeaderRewrite {
    /// A transform applying `config`.
    pub fn new(config: VolumeRewriterConfig) -> (r: VolumeHeaderRewrite)
        ensures
            r.config == config,
    {
        VolumeHeaderRewrite { config }
    }

    /// The new output gain in Q7.8 units, before the range check.
    pub open spec fn spec_new_gain(&self, opus: Seq<u8>) -> int {
        match self.config.output_gain {
            VolumeTarget::NoChange => spec_output_gain_of(opus),
            VolumeTarget::ZeroGain => 0,
            VolumeTarget::LUFS(t) => t.value - self.config.spec_volume_for_gain()->Some_0.value,
        }
    }

    /// The value of an R128 tag for measured volume `mv`: the gain an R128
    /// player must add, after the new output gain, to play at -23 LUFS.
    pub open spec fn spec_tag_value(&self, opus: Seq<u8>, mv: FixedPointGain) -> int {
        R128_LUFS - self.spec_new_gain(opus) - mv.value
    }

    /// Tags are written except in clear mode (`NoChange` target).
    pub open spec fn spec_writes_tags(&self) -> bool {
        !(self.config.output_gain is NoChange)
    }

    /// The track tag to write, before the range check.
    pub open spec fn spec_track_tag(&self, opus: Seq<u8>) -> Option<int> {
        if self.spec_writes_tags() && self.config.track_volume is Some {
            Some(self.spec_tag_value(opus, self.config.track_volume->Some_0))
        } else {
            None
        }
    }

    /// The album tag to write, before the range check.
    pub open spec fn spec_album_tag(&self, opus: Seq<u8>) -> Option<int> {
        if self.spec_writes_tags() && self.config.album_volume is Some {
            Some(self.spec_tag_value(opus, self.config.album_volume->Some_0))
        } else {
            None
        }
    }

    /// How many tags the transform writes.
    pub open spec fn spec_tag_count(&self, opus: Seq<u8>) -> int {
        (if self.spec_track_tag(opus) is Some {
            1int
        } else {
            0int
        }) + (if self.spec_album_tag(opus) is Some {
            1int
        } else {
            0int
        })
    }

    /// All computed gains fit the Q7.8 range.
    pub open spec fn spec_gains_fit(&self, opus: Seq<u8>) -> bool {
        &&& i16::MIN <= self.spec_new_gain(opus) <= i16::MAX
        &&& match self.spec_track_tag(opus) {
            Some(x) => i16::MIN <= x <= i16::MAX,
            None => true,
        }
        &&& match self.spec_album_tag(opus) {
            Some(x) => i16::MIN <= x <= i16::MAX,
            None => true,
        }
    }

    /// The comment entries after the rewrite: both R128 tags removed, the
    /// fresh tags appended at the end, track before album.
    pub open spec fn spec_new_entries(&self, opus: Seq<u8>, comment: CommentHeaderModel) -> Seq<
        EntryModel,
    > {
        let base = spec_base_entries(comment);
        let with_track = match self.spec_track_tag(opus) {
            Some(x) => base.push(
                EntryModel { key: spec_track_gain_key(), value: spec_decimal(x) },
            ),
            None => base,
        };
        match self.spec_album_tag(opus) {
            Some(x) => with_track.push(
                EntryModel { key: spec_album_gain_key(), value: spec_decimal(x) },
            ),
            None => with_track,
        }
    }
}

/// The decimal form of a Q7.8 value takes at most six bytes.
proof fn lemma_digits_len(n: nat, k: nat)
    requires
        n < pow10(k),
    ensures
        spec_digits(n).len() <= k,
    decreases k,
{
    if n == 0 {
    } else {
        assert(k > 0);
        assert(n / 10 < pow10((k - 1) as nat)) by (nonlinear_arith)
            requires
                n < pow10(k),
                k > 0,
                pow10(k) == 10 * pow10((k - 1) as nat),
        ;
        lemma_digits_len(n / 10, (k - 1) as nat);
    }
}

/// A gain value in range is emitted as at most six bytes.
proof fn lemma_decimal_len(x: int)
    requires
        i16::MIN <= x <= i16::MAX,
    ensures
        spec_decimal(x).len() <= 6,
{
    assert(pow10(0) == 1);
    assert(pow10(1) == 10);
    assert(pow10(2) == 100);
    assert(pow10(3) == 1000);
    assert(pow10(4) == 10000);
    assert(pow10(5) == 100000);
    if x == 0 {
    } else if x < 0 {
        lemma_digits_len((-x) as nat, 5);
    } else {
        lemma_digits_len(x as nat, 5);
    }
}

/// Reads one R128 tag from the comment header, permissively.
fn read_tag(comment_header: &CommentHeader, key: &Vec<u8>) -> (r: Option<FixedPointGain>)
    ensures
        r == spec_tag_gain(comment_header@.entries, key@),
{
    match comment_header.get_first(key) {
        None => None,
        Some(v) => FixedPointGain::parse_decimal_bytes(v),
    }
}

impl HeaderRewrite for VolumeHeaderRewrite {
    type Summary = OpusGains;

    /// A LUFS target needs the measured volume its mode calls for.
    open spec fn spec_config_ok(&self) -> bool {
        self.config.output_gain is LUFS ==> self.config.spec_volume_for_gain() is Some
    }

    /// The summary reports the output gain and both R128 tags as the
    /// headers carry them.
    open spec fn spec_summary(&self, opus: Seq<u8>, comment: CommentHeaderModel) -> OpusGains {
        OpusGains {
            output: FixedPointGain { value: spec_output_gain_of(opus) as i16 },
            track_r128: spec_tag_gain(comment.entries, spec_track_gain_key()),
            album_r128: spec_tag_gain(comment.entries, spec_album_gain_key()),
        }
    }

    open spec fn spec_rewrite_ok(&self, opus: Seq<u8>, comment: CommentHeaderModel) -> bool {
        self.spec_gains_fit(opus) && spec_base_entries(comment).len() + self.spec_tag_count(opus)
            <= u32::MAX
    }

    open spec fn spec_rewritten_opus(&self, opus: Seq<u8>, comment: CommentHeaderModel) -> Seq<
        u8,
    > {
        spec_with_output_gain(opus, self.spec_new_gain(opus) as i16)
    }

    open spec fn spec_rewritten_comment(
        &self,
        opus: Seq<u8>,
        comment: CommentHeaderModel,
    ) -> CommentHeaderModel {
        CommentHeaderModel {
            vendor: comment.vendor,
            entries: self.spec_new_entries(opus, comment),
            tail: comment.tail,
        }
    }

    open spec fn spec_rewrite_err(&self, opus: Seq<u8>, comment: CommentHeaderModel) -> Error {
        if !self.spec_gains_fit(opus) {
            Error::GainOutOfBounds
        } else {
            Error::CommentHeaderTooLarge
        }
    }

    fn summarize(&self, opus_header: &OpusHeader, comment_header: &CommentHeader) -> (r: Result<
        OpusGains,
        Error,
    >) {
        let output = opus_header.get_output_gain();
        let track_key = tag_track_gain();
        let album_key = tag_album_gain();
        let track_r128 = read_tag(comment_header, &track_key);
        let album_r128 = read_tag(comment_header, &album_key);
        proof {
            assert(output == FixedPointGain { value: spec_output_gain_of(opus_header@) as i16 });
        }
        Ok(OpusGains { output, track_r128, album_r128 })
    }

    fn rewrite(&self, opus_header: &mut OpusHeader, comment_header: &mut CommentHeader) -> (r:
        Result<(), Error>) {
        let ghost opus0 = opus_header@;
        let cur = opus_header.get_output_gain();
        let new_gain: FixedPointGain = match self.config.output_gain {
            VolumeTarget::NoChange => cur,
            VolumeTarget::ZeroGain => FixedPointGain::from_fixed_point(0),
            VolumeTarget::LUFS(t) => {
                let vol = match self.config.output_gain_mode {
                    OutputGainMode::Album => self.config.album_volume,
                    OutputGainMode::Track => self.config.track_volume,
                };
                let vol = match vol {
                    Some(v) => v,
                    None => {
                        proof {
                            assert(false);
                        }
                        return Err(Error::GainOutOfBounds);
                    },
                };
                let diff: i32 = t.value as i32 - vol.value as i32;
                if diff < i16::MIN as i32 || diff > i16::MAX as i32 {
                    return Err(Error::GainOutOfBounds);
                }
                FixedPointGain::from_fixed_point(diff as i16)
            },
        };
        proof {
            assert(new_gain.value == self.spec_new_gain(opus0));
        }
        let writes_tags = match self.config.output_gain {
            VolumeTarget::NoChange => false,
            _ => true,
        };
        let track_tag: Option<FixedPointGain> = if writes_tags {
            match self.config.track_volume {
                Some(mv) => {
                    let x: i32 = R128_LUFS as i32 - new_gain.value as i32 - mv.value as i32;
                    if x < i16::MIN as i32 || x > i16::MAX as i32 {
                        return Err(Error::GainOutOfBounds);
                    }
                    Some(FixedPointGain::from_fixed_point(x as i16))
                },
                None => None,
            }
        } else {
            None
        };
        let album_tag: Option<FixedPointGain> = if writes_tags {
            match self.config.album_volume {
                Some(mv) => {
                    let x: i32 = R128_LUFS as i32 - new_gain.value as i32 - mv.value as i32;
                    if x < i16::MIN as i32 || x > i16::MAX as i32 {
                        return Err(Error::GainOutOfBounds);
                    }
                    Some(FixedPointGain::from_fixed_point(x as i16))
                },
                None => None,
            }
        } else {
            None
        };
        proof {
            assert(self.spec_gains_fit(opus0));
            match self.spec_track_tag(opus0) {
                Some(x) => {
                    assert(track_tag == Some(FixedPointGain { value: x as i16 }));
                },
                None => {
                    assert(track_tag is None);
                },
            }
            match self.spec_album_tag(opus0) {
                Some(x) => {
                    assert(album_tag == Some(FixedPointGain { value: x as i16 }));
                },
                None => {
                    assert(album_tag is None);
                },
            }
        }
        opus_header.set_output_gain(new_gain);
        let track_key = tag_track_gain();
        let album_key = tag_album_gain();
        comment_header.remove_all(&track_key);
        comment_header.remove_all(&album_key);
        let ghost base = comment_header@.entries;
        if let Some(g) = track_tag {
            let value = g.to_decimal_bytes();
            proof {
                lemma_decimal_len(g.value as int);
            }
            if let Err(e) = comment_header.push(&track_key, &value) {
                proof {
                    assert(e == Error::CommentHeaderTooLarge);
                    assert(base.len() >= u32::MAX);
                }
                return Err(e);
            }
        }
        if let Some(g) = album_tag {
            let value = g.to_decimal_bytes();
            proof {
                lemma_decimal_len(g.value as int);
            }
            if let Err(e) = comment_header.push(&album_key, &value) {
                proof {
                    assert(e == Error::CommentHeaderTooLarge);
                }
                return Err(e);
            }
        }
        proof {
            assert(comment_header@.entries == self.spec_new_entries(opus0, old(comment_header)@));
        }
        Ok(())
    }
}

/// The two tag names are valid comment keys and do not match each other.
proof fn lemma_tag_keys()
    ensures
        crate::comment_list::valid_key(spec_track_gain_key()),
        crate::comment_list::valid_key(spec_album_gain_key()),
        crate::comment_list::keys_equal_spec(spec_track_gain_key(), spec_track_gain_key()),
        crate::comment_list::keys_equal_spec(spec_album_gain_key(), spec_album_gain_key()),
        !crate::comment_list::keys_equal_spec(spec_album_gain_key(), spec_track_gain_key()),
        !crate::comment_list::keys_equal_spec(spec_track_gain_key(), spec_album_gain_key()),
{
    let tk = spec_track_gain_key();
    let ak = spec_album_gain_key();
    assert(crate::comment_list::lower_byte(tk[5]) == 116);
    assert(crate::comment_list::lower_byte(ak[5]) == 97);
    assert(crate::comment_list::valid_key(tk)) by {
        assert forall|i: int| 0 <= i < tk.len() implies 0x20 <= tk[i] <= 0x7e && tk[i] != 0x3d by {
        }
    }
    assert(crate::comment_list::valid_key(ak)) by {
        assert forall|i: int| 0 <= i < ak.len() implies 0x20 <= ak[i] <= 0x7e && ak[i] != 0x3d by {
        }
    }
}

/// Volume rewriting is idempotent: a second rewrite with the same
/// configuration and the same measurements leaves the rewritten headers
/// byte-for-byte unchanged, so a second pass over the stream reports
/// `HeadersUnchanged`.
#[verifier::rlimit(100)]
pub proof fn lemma_volume_rewrite_idempotent(
    hr: VolumeHeaderRewrite,
    opus: Seq<u8>,
    comment: CommentHeaderModel,
)
    requires
        hr.spec_config_ok(),
        crate::opus_header::is_opus_header(opus),
        crate::comment_header::wf_model(comment),
        hr.spec_rewrite_ok(opus, comment),
    ensures
        ({
            let oh2 = hr.spec_rewritten_opus(opus, comment);
            let cd2 = crate::comment_header::spec_serialize(
                hr.spec_rewritten_comment(opus, comment),
            );
            &&& header_rewriter::spec_headers_error(hr, oh2, cd2) is None
            &&& !header_rewriter::spec_headers_changed(hr, oh2, cd2)
        }),
{
    let tk = spec_track_gain_key();
    let ak = spec_album_gain_key();
    lemma_tag_keys();
    let new = hr.spec_new_gain(opus);
    let oh2 = hr.spec_rewritten_opus(opus, comment);
    let cm2 = hr.spec_rewritten_comment(opus, comment);
    let cd2 = crate::comment_header::spec_serialize(cm2);

    crate::opus_header::lemma_gain_of_set(opus, new as i16);
    assert(crate::opus_header::is_opus_header(oh2));
    assert(crate::opus_header::spec_output_gain_of(oh2) == new);
    assert(hr.spec_new_gain(oh2) == new);
    assert(hr.spec_track_tag(oh2) == hr.spec_track_tag(opus));
    assert(hr.spec_album_tag(oh2) == hr.spec_album_tag(opus));
    assert(hr.spec_gains_fit(oh2));

    let base = spec_base_entries(comment);
    let once = spec_remove_key(comment.entries, tk);
    crate::comment_list::lemma_remove_key_removes(comment.entries, tk);
    crate::comment_list::lemma_remove_key_preserves_no_match(once, tk, ak);
    crate::comment_list::lemma_remove_key_removes(once, ak);
    assert(forall|i: int| 0 <= i < base.len() ==> !crate::comment_list::keys_equal_spec(base[i].key, tk));
    assert(forall|i: int| 0 <= i < base.len() ==> !crate::comment_list::keys_equal_spec(base[i].key, ak));
    crate::comment_list::lemma_remove_key_preserves_wf(comment.entries, tk);
    crate::comment_list::lemma_remove_key_preserves_wf(once, ak);

    let te_opt = hr.spec_track_tag(opus);
    let ae_opt = hr.spec_album_tag(opus);
    let tagseq: Seq<EntryModel> = {
        let with_track: Seq<EntryModel> = match te_opt {
            Some(x) => seq![EntryModel { key: tk, value: spec_decimal(x) }],
            None => Seq::empty(),
        };
        match ae_opt {
            Some(x) => with_track + seq![EntryModel { key: ak, value: spec_decimal(x) }],
            None => with_track,
        }
    };
    assert(cm2.entries =~= base + tagseq);
    match te_opt {
        Some(x) => {
            lemma_decimal_len(x);
        },
        None => {},
    }
    match ae_opt {
        Some(x) => {
            lemma_decimal_len(x);
        },
        None => {},
    }
    assert(crate::comment_header::wf_model(cm2)) by {
        assert(cm2.entries.len() == base.len() + tagseq.len());
        assert(cm2.entries.len() <= u32::MAX);
        assert forall|i: int|
            0 <= i < cm2.entries.len() implies crate::comment_list::wf_entry(cm2.entries[i]) by {
            if i < base.len() {
                assert(cm2.entries[i] == base[i]);
            } else {
                assert(cm2.entries[i] == tagseq[i - base.len()]);
            }
        }
    }

    crate::comment_header::lemma_parse_of_serialize(cm2);
    assert(crate::comment_header::spec_has_comment_magic(cd2));
    assert(crate::comment_header::spec_parse_body(cd2.skip(8)) == Some(cm2));

    // The base entries of the rewritten header are the same base entries.
    crate::comment_list::lemma_remove_key_concat(base, tagseq, tk);
    crate::comment_list::lemma_remove_key_no_match(base, tk);
    let tag_after_tk = spec_remove_key(tagseq, tk);
    let ae_only: Seq<EntryModel> = match ae_opt {
        Some(x) => seq![EntryModel { key: ak, value: spec_decimal(x) }],
        None => Seq::empty(),
    };
    assert(tag_after_tk =~= ae_only) by {
        let empty = Seq::<EntryModel>::empty();
        assert(spec_remove_key(empty, tk) =~= empty);
        match ae_opt {
            Some(y) => {
                assert(ae_only.len() == 1 && ae_only[0].key == ak);
                assert(ae_only.drop_first() =~= empty);
                assert(spec_remove_key(ae_only.drop_first(), tk) == spec_remove_key(empty, tk));
                assert(spec_remove_key(ae_only, tk) == seq![ae_only[0]] + spec_remove_key(
                    ae_only.drop_first(),
                    tk,
                ));
                assert(spec_remove_key(ae_only, tk) =~= ae_only);
            },
            None => {
                assert(ae_only =~= empty);
                assert(spec_remove_key(ae_only, tk) =~= empty);
            },
        }
        match te_opt {
            Some(x) => {
                assert(tagseq.len() >= 1 && tagseq[0].key == tk);
                assert(tagseq.drop_first() =~= ae_only);
                assert(spec_remove_key(tagseq, tk) == spec_remove_key(tagseq.drop_first(), tk));
                assert(spec_remove_key(tagseq.drop_first(), tk) == spec_remove_key(ae_only, tk));
            },
            None => {
                assert(tagseq =~= ae_only);
                assert(spec_remove_key(tagseq, tk) == spec_remove_key(ae_only, tk));
            },
        }
    }
    let after_tk = spec_remove_key(cm2.entries, tk);
    assert(after_tk =~= base + ae_only);
    crate::comment_list::lemma_remove_key_concat(base, ae_only, ak);
    crate::comment_list::lemma_remove_key_no_match(base, ak);
    assert(spec_remove_key(ae_only, ak) =~= Seq::<EntryModel>::empty()) by {
        let empty = Seq::<EntryModel>::empty();
        assert(spec_remove_key(empty, ak) =~= empty);
        match ae_opt {
            Some(x) => {
                assert(ae_only.len() == 1 && ae_only[0].key == ak);
                assert(ae_only.drop_first() =~= empty);
                assert(spec_remove_key(ae_only.drop_first(), ak) == spec_remove_key(empty, ak));
                assert(spec_remove_key(ae_only, ak) == spec_remove_key(ae_only.drop_first(), ak));
            },
            None => {
                assert(ae_only =~= empty);
            },
        }
    }
    assert(spec_base_entries(cm2) =~= base);

    assert(hr.spec_rewrite_ok(oh2, cm2));
    assert(hr.spec_new_entries(oh2, cm2) =~= cm2.entries);
    assert(hr.spec_rewritten_comment(oh2, cm2) == cm2);
    crate::opus_header::lemma_gain_set_twice(opus, new as i16);
    assert(hr.spec_rewritten_opus(oh2, cm2) == oh2);
    assert(!header_rewriter::spec_headers_changed(hr, oh2, cd2));
    assert(header_rewriter::spec_headers_error(hr, oh2, cd2) is None);
}

/// Resolves the gain tool's automatic mode choice: album volume in album
/// mode, track volume otherwise.
pub fn resolve_output_gain_mode(use_auto: bool, album_mode: bool) -> (r: OutputGainMode)
    ensures
        use_auto && album_mode ==> r == OutputGainMode::Album,
        !(use_auto && album_mode) ==> r == OutputGainMode::Track,
{
    if use_auto && album_mode {
        OutputGainMode::Album
    } else {
        OutputGainMode::Track
    }
}

/// Clear mode forces the no-change target and switches album handling off;
/// otherwise the chosen settings stand.
pub fn apply_clear_mode(clear: bool, album_mode: bool, target: VolumeTarget) -> (r: (
    bool,
    VolumeTarget,
))
    ensures
        clear ==> r == (false, VolumeTarget::NoChange),
        !clear ==> r == (album_mode, target),
{
    if clear {
        (false, VolumeTarget::NoChange)
    } else {
        (album_mode, target)
    }
}

/// The result type of submitting a packet to a volume rewriter.
pub type SubmitResult = header_rewriter::SubmitResult<OpusGains>;

} // verus!
