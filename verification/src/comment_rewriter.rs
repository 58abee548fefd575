//! The comment transform: edits the comment header of an Ogg Opus stream
//! (list, append with deletions, or wholesale replace) and leaves the
//! identification header alone.
use vstd::prelude::*;

use crate::comment_header::{
    lemma_serialize_of_parse, spec_extend, spec_parse_body, spec_serialize, CommentHeader,
    CommentHeaderModel,
};
use crate::comment_list::{
    spec_retain_not_matching, DiscreteCommentList, EntryModel, KeyValueMatch,
};
use crate::error::Error;
use crate::header_rewriter::{self, HeaderRewrite};
use crate::opus_header::OpusHeader;

verus! {

/// What the comment transform does to the comment list.
#[derive(Debug)]
pub enum CommentRewriterAction {
    /// Leave the header as it is (list mode).
    NoChange,
    /// Remove every entry matched by the delete patterns, then append the
    /// given entries.
    Modify { delete: KeyValueMatch, append: DiscreteCommentList },
    /// Replace the whole list with the given entries.
    Replace(DiscreteCommentList),
}

/// Configuration for the comment transform.
#[derive(Debug)]
pub struct CommentRewriterConfig {
    /// The action to be performed.
    pub action: CommentRewriterAction,
}

/// The comment transform; its summary is the comment list itself.
#[derive(Debug)]
pub struct CommentHeaderRewrite {
    pub config: CommentRewriterConfig,
}

/// The comment list the action leaves behind, together with the first
/// error met while appending, if any.
pub open spec fn spec_action_result(
    action: &CommentRewriterAction,
    entries: Seq<EntryModel>,
) -> (Seq<EntryModel>, Option<Error>) {
    match action {
        CommentRewriterAction::NoChange => (entries, None::<Error>),
        CommentRewriterAction::Replace(tags) => spec_extend(Seq::empty(), tags@),
        CommentRewriterAction::Modify { delete, append } => spec_extend(
            spec_retain_not_matching(entries, delete),
            append@,
        ),
    }
}

impl CommentHeaderRewrite {
    /// A transform performing `config`'s action.
    pub fn new(config: CommentRewriterConfig) -> (r: CommentHeaderRewrite)
        ensures
            r.config.action == config.action,
    {
        CommentHeaderRewrite { config }
    }
}

impl HeaderRewrite for CommentHeaderRewrite {
    type Summary = DiscreteCommentList;

    /// The comment transform needs no measurements: any configuration is
    /// complete.
    open spec fn spec_config_ok(&self) -> bool {
        true
    }

    /// The summary is the comment list as it stands.
    open spec fn spec_summary(&self, opus: Seq<u8>, comment: CommentHeaderModel) -> Seq<
        EntryModel,
    > {
        comment.entries
    }

    open spec fn spec_rewrite_ok(&self, opus: Seq<u8>, comment: CommentHeaderModel) -> bool {
        spec_action_result(&self.config.action, comment.entries).1 is None
    }

    /// The identification header is never touched.
    open spec fn spec_rewritten_opus(&self, opus: Seq<u8>, comment: CommentHeaderModel) -> Seq<
        u8,
    > {
        opus
    }

    /// The vendor string and framing tail are preserved; the entry list is
    /// what the action makes of it.
    open spec fn spec_rewritten_comment(
        &self,
        opus: Seq<u8>,
        comment: CommentHeaderModel,
    ) -> CommentHeaderModel {
        CommentHeaderModel {
            vendor: comment.vendor,
            entries: spec_action_result(&self.config.action, comment.entries).0,
            tail: comment.tail,
        }
    }

    open spec fn spec_rewrite_err(&self, opus: Seq<u8>, comment: CommentHeaderModel) -> Error {
        spec_action_result(&self.config.action, comment.entries).1->Some_0
    }

    fn summarize(&self, opus_header: &OpusHeader, comment_header: &CommentHeader) -> (r: Result<
        DiscreteCommentList,
        Error,
    >) {
        Ok(comment_header.to_discrete_comment_list())
    }

    fn rewrite(&self, opus_header: &mut OpusHeader, comment_header: &mut CommentHeader) -> (r:
        Result<(), Error>) {
        match &self.config.action {
            CommentRewriterAction::NoChange => Ok(()),
            CommentRewriterAction::Replace(tags) => {
                comment_header.clear();
                comment_header.extend(tags)
            },
            CommentRewriterAction::Modify { delete, append } => {
                comment_header.retain_not_matching(delete);
                comment_header.extend(append)
            },
        }
    }
}

/// A stream whose headers already conform needs no rewrite: with the
/// no-change action, the rewriter reports the header bytes as unchanged on
/// every stream it does not reject.
pub proof fn lemma_no_change_reports_unchanged(
    hr: CommentHeaderRewrite,
    hd: Seq<u8>,
    cd: Seq<u8>,
)
    requires
        hr.config.action is NoChange,
        header_rewriter::spec_headers_error(hr, hd, cd) is None,
    ensures
        !header_rewriter::spec_headers_changed(hr, hd, cd),
{
    let m = spec_parse_body(cd.skip(8))->Some_0;
    lemma_serialize_of_parse(cd);
    assert(hr.spec_rewritten_comment(hd, m) == m);
    assert(spec_serialize(hr.spec_rewritten_comment(hd, m)) == cd);
}

/// The result type of submitting a packet to a comment rewriter.
pub type SubmitResult = header_rewriter::SubmitResult<DiscreteCommentList>;

} // verus!
