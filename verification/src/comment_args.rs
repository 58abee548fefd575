//! Parsing of comment tool arguments: `-t NAME=VALUE` pairs to append or
//! write, and `-d NAME` / `-d NAME=VALUE` delete patterns, with optional
//! backslash escaping of values.
use vstd::prelude::*;

use crate::comment_header::spec_entry_of_bytes;
use crate::comment_list::{
    keys_equal_spec, valid_key, split_at_eq, validate_comment_field_name, CommentEntry,
    DiscreteCommentList, EntryModel, KeyValueMatch, ValueMatch,
};
use crate::error::Error;
use crate::escaping::{spec_unescape, unescape_str};

verus! {

/// Parses one `KEY=VALUE` comment argument: split at the first `=`, the
/// key validated.
pub fn parse_comment(comment: &Vec<u8>) -> (r: Result<CommentEntry, Error>)
    ensures
        match r {
            Ok(e) => spec_entry_of_bytes(comment@) == Some(e@),
            Err(er) => spec_entry_of_bytes(comment@) is None && er
                == Error::InvalidCommentFieldName,
        },
{
    match split_at_eq(comment) {
        None => Err(Error::InvalidCommentFieldName),
        Some((key, value)) => {
            if let Err(e) = validate_comment_field_name(&key) {
                return Err(e);
            }
            Ok(CommentEntry { key, value })
        },
    }
}

/// What one `-t` argument denotes: the entry, with the value unescaped when
/// escapes are enabled.
pub open spec fn spec_parse_tag(arg: Seq<u8>, escaped: bool) -> Result<EntryModel, Error> {
    match spec_entry_of_bytes(arg) {
        None => Err(Error::InvalidCommentFieldName),
        Some(e) => if escaped {
            match spec_unescape(e.value) {
                Ok(v) => Ok(EntryModel { key: e.key, value: v }),
                Err(x) => Err(Error::EscapeDecode(x)),
            }
        } else {
            Ok(e)
        },
    }
}

/// What a list of `-t` arguments denotes: the entries in order, or the
/// first error; an entry that cannot be carried by the comment-header
/// layout is refused.
pub open spec fn spec_parse_tags(args: Seq<Vec<u8>>, escaped: bool) -> Result<
    Seq<EntryModel>,
    Error,
>
    decreases args.len(),
{
    if args.len() == 0 {
        Ok(Seq::empty())
    } else {
        match spec_parse_tag(args[0]@, escaped) {
            Err(e) => Err(e),
            Ok(en) => if en.key.len() + 1 + en.value.len() > u32::MAX {
                Err(Error::CommentHeaderTooLarge)
            } else {
                match spec_parse_tags(args.drop_first(), escaped) {
                    Ok(rest) => Ok(seq![en] + rest),
                    Err(e) => Err(e),
                }
            },
        }
    }
}

/// Glues parsed entries onto the outcome of parsing the rest.
spec fn compose_tags(prefix: Seq<EntryModel>, rest: Result<Seq<EntryModel>, Error>) -> Result<
    Seq<EntryModel>,
    Error,
> {
    match rest {
        Ok(t) => Ok(prefix + t),
        Err(e) => Err(e),
    }
}

/// Parses the `-t NAME=VALUE` arguments into a comment list, unescaping
/// values when escapes are enabled; the first offending argument decides
/// the error.
pub fn parse_new_comment_args(args: &Vec<Vec<u8>>, escaped: bool) -> (r: Result<
    DiscreteCommentList,
    Error,
>)
    ensures
        match r {
            Ok(list) => spec_parse_tags(args@, escaped) == Ok::<Seq<EntryModel>, Error>(list@)
                && list.wf(),
            Err(e) => spec_parse_tags(args@, escaped) == Err::<Seq<EntryModel>, Error>(e),
        },
{
    let ghost all = args@;
    let mut result = DiscreteCommentList::with_capacity(args.len());
    let mut i: usize = 0;
    proof {
        assert(all.skip(0) =~= all);
        match spec_parse_tags(all, escaped) {
            Ok(t) => {
                assert(Seq::<EntryModel>::empty() + t =~= t);
            },
            Err(_) => {},
        }
    }
    while i < args.len()
        invariant
            i <= all.len(),
            all == args@,
            result.wf(),
            spec_parse_tags(all, escaped) == compose_tags(
                result@,
                spec_parse_tags(all.skip(i as int), escaped),
            ),
        decreases all.len() - i,
    {
        let ghost rest = all.skip(i as int);
        proof {
            assert(rest[0] == all[i as int]);
            assert(rest.drop_first() =~= all.skip(i + 1));
        }
        let arg = &args[i];
        let entry = match parse_comment(arg) {
            Ok(e) => e,
            Err(e) => {
                return Err(e);
            },
        };
        let value = if escaped {
            match unescape_str(&entry.value) {
                Ok(v) => v,
                Err(x) => {
                    return Err(Error::EscapeDecode(x));
                },
            }
        } else {
            entry.value
        };
        let ghost en = spec_parse_tag(rest[0]@, escaped)->Ok_0;
        proof {
            assert(en == EntryModel { key: entry.key@, value: value@ });
        }
        let ghost prev = result@;
        match result.push(&entry.key, &value) {
            Ok(_) => {
                proof {
                    assert(result@ == prev.push(en));
                    match spec_parse_tags(all.skip(i + 1), escaped) {
                        Ok(t) => {
                            assert(prev + (seq![en] + t) =~= prev.push(en) + t);
                        },
                        Err(_) => {},
                    }
                }
            },
            Err(e) => {
                proof {
                    assert(e == Error::CommentHeaderTooLarge);
                }
                return Err(e);
            },
        }
        i = i + 1;
    }
    proof {
        assert(all.skip(all.len() as int) =~= Seq::<Vec<u8>>::empty());
        assert(result@ + Seq::<EntryModel>::empty() =~= result@);
    }
    Ok(result)
}

/// The error one `-d` argument raises, if any: a `KEY=VALUE` pattern with a
/// bad escape, or a bare pattern that is no valid key.
pub open spec fn spec_pattern_error(arg: Seq<u8>, escaped: bool) -> Option<Error> {
    match spec_entry_of_bytes(arg) {
        Some(e) => if escaped {
            match spec_unescape(e.value) {
                Ok(_) => None,
                Err(x) => Some(Error::EscapeDecode(x)),
            }
        } else {
            None
        },
        None => if valid_key(arg) {
            None
        } else {
            Some(Error::InvalidCommentFieldName)
        },
    }
}

/// The first error among the `-d` arguments.
pub open spec fn spec_delete_args_error(args: Seq<Vec<u8>>, escaped: bool) -> Option<Error>
    decreases args.len(),
{
    if args.len() == 0 {
        None
    } else {
        match spec_pattern_error(args[0]@, escaped) {
            Some(e) => Some(e),
            None => spec_delete_args_error(args.drop_first(), escaped),
        }
    }
}

/// Whether one `-d` argument matches the pair `(k, v)`: a `KEY=VALUE`
/// pattern matches its key case-insensitively and its (possibly unescaped)
/// value exactly; a bare `KEY` pattern matches the key alone.
pub open spec fn spec_pattern_matches(arg: Seq<u8>, escaped: bool, k: Seq<u8>, v: Seq<u8>) -> bool {
    match spec_entry_of_bytes(arg) {
        Some(e) => keys_equal_spec(e.key, k) && (if escaped {
            spec_unescape(e.value) == Ok::<Seq<u8>, crate::error::EscapeDecodeError>(v)
        } else {
            v == e.value
        }),
        None => keys_equal_spec(arg, k),
    }
}

/// Parses the `-d NAME` / `-d NAME=VALUE` arguments into a pattern set.
/// The result matches exactly the pairs some argument matches.
pub fn parse_delete_comment_args(args: &Vec<Vec<u8>>, escaped: bool) -> (r: Result<
    KeyValueMatch,
    Error,
>)
    ensures
        match r {
            Ok(m) => spec_delete_args_error(args@, escaped) is None && (forall|
                k: Seq<u8>,
                v: Seq<u8>,
            |
                #[trigger] m.spec_matches(k, v) <==> exists|i: int|
                    0 <= i < args@.len() && spec_pattern_matches(args@[i]@, escaped, k, v)),
            Err(e) => spec_delete_args_error(args@, escaped) == Some(e),
        },
{
    let ghost all = args@;
    let mut result = KeyValueMatch::new();
    let mut i: usize = 0;
    proof {
        assert(all.skip(0) =~= all);
    }
    while i < args.len()
        invariant
            i <= all.len(),
            all == args@,
            spec_delete_args_error(all, escaped) == spec_delete_args_error(
                all.skip(i as int),
                escaped,
            ),
            forall|j: int| 0 <= j < i ==> spec_pattern_error(all[j]@, escaped) is None,
            forall|k: Seq<u8>, v: Seq<u8>|
                #[trigger] result.spec_matches(k, v) <==> exists|j: int|
                    0 <= j < i && spec_pattern_matches(all[j]@, escaped, k, v),
        decreases all.len() - i,
    {
        let ghost rest = all.skip(i as int);
        proof {
            assert(rest[0] == all[i as int]);
            assert(rest.drop_first() =~= all.skip(i + 1));
        }
        let arg = &args[i];
        let (key, vm) = match parse_comment(arg) {
            Ok(entry) => {
                let value = if escaped {
                    match unescape_str(&entry.value) {
                        Ok(v) => v,
                        Err(x) => {
                            return Err(Error::EscapeDecode(x));
                        },
                    }
                } else {
                    entry.value
                };
                (entry.key, ValueMatch::singleton(value))
            },
            Err(_) => {
                if let Err(e) = validate_comment_field_name(arg) {
                    return Err(e);
                }
                (crate::bytes::clone_bytes(arg), ValueMatch::All)
            },
        };
        let ghost key_view = key@;
        let ghost vm_snap = vm;
        proof {
            assert forall|k: Seq<u8>, v: Seq<u8>|
                (keys_equal_spec(key_view, k) && vm_snap.spec_matches(v))
                    <==> #[trigger] spec_pattern_matches(rest[0]@, escaped, k, v) by {}
        }
        let ghost prev = result;
        result.add(key, vm);
        proof {
            assert forall|k: Seq<u8>, v: Seq<u8>|
                #[trigger] result.spec_matches(k, v) <==> exists|j: int|
                    0 <= j < i + 1 && spec_pattern_matches(all[j]@, escaped, k, v) by {
                if result.spec_matches(k, v) {
                    if prev.spec_matches(k, v) {
                        let j = choose|j: int|
                            0 <= j < i && spec_pattern_matches(all[j]@, escaped, k, v);
                        assert(spec_pattern_matches(all[j]@, escaped, k, v));
                    } else {
                        assert(spec_pattern_matches(all[i as int]@, escaped, k, v));
                    }
                }
                if exists|j: int| 0 <= j < i + 1 && spec_pattern_matches(all[j]@, escaped, k, v) {
                    let j = choose|j: int|
                        0 <= j < i + 1 && spec_pattern_matches(all[j]@, escaped, k, v);
                    if j < i {
                        assert(prev.spec_matches(k, v));
                    } else {
                        assert(keys_equal_spec(key_view, k) && vm_snap.spec_matches(v));
                    }
                }
            }
        }
        i = i + 1;
    }
    proof {
        assert(all.skip(all.len() as int) =~= Seq::<Vec<u8>>::empty());
    }
    Ok(result)
}

} // verus!
