//! Backslash escaping of NUL, LF, CR and backslash in comment values, in the
//! style of `vorbiscomment`: `\0`, `\n`, `\r`, `\\`.
use vstd::prelude::*;

use crate::error::EscapeDecodeError;

verus! {

/// The bytes that escaping protects.
pub open spec fn is_escaped_byte(b: u8) -> bool {
    b == 0 || b == 10 || b == 13 || b == 92
}

/// The code byte that stands for special byte `b` after a backslash.
pub open spec fn escape_code(b: u8) -> u8 {
    if b == 0 {
        48
    } else if b == 10 {
        110
    } else if b == 13 {
        114
    } else {
        92
    }
}

/// Whether `c` may follow a backslash in a well-formed escaped string.
pub open spec fn is_escape_code(c: u8) -> bool {
    c == 48 || c == 110 || c == 114 || c == 92
}

/// The special byte that code `c` stands for.
pub open spec fn unescape_code(c: u8) -> u8 {
    if c == 48 {
        0
    } else if c == 110 {
        10
    } else if c == 114 {
        13
    } else {
        92
    }
}

/// The escaped form of `s`: each special byte becomes a backslash pair and
/// every other byte is kept as it is.
pub open spec fn spec_escape(s: Seq<u8>) -> Seq<u8>
    decreases s.len(),
{
    if s.len() == 0 {
        Seq::empty()
    } else if is_escaped_byte(s[0]) {
        seq![92u8, escape_code(s[0])] + spec_escape(s.drop_first())
    } else {
        seq![s[0]] + spec_escape(s.drop_first())
    }
}

/// The unescaped form of `s`, or the first decoding error met when scanning
/// left to right.
pub open spec fn spec_unescape(s: Seq<u8>) -> Result<Seq<u8>, EscapeDecodeError>
    decreases s.len(),
{
    if s.len() == 0 {
        Ok(Seq::empty())
    } else if s[0] == 92 {
        if s.len() == 1 {
            Err(EscapeDecodeError::TrailingBackslash)
        } else if is_escape_code(s[1]) {
            match spec_unescape(s.skip(2)) {
                Ok(r) => Ok(seq![unescape_code(s[1])] + r),
                Err(e) => Err(e),
            }
        } else {
            Err(EscapeDecodeError::InvalidEscape(s[1]))
        }
    } else {
        match spec_unescape(s.drop_first()) {
            Ok(r) => Ok(seq![s[0]] + r),
            Err(e) => Err(e),
        }
    }
}

/// Escaping distributes over concatenation: it looks at one byte at a time.
proof fn lemma_escape_concat(a: Seq<u8>, b: Seq<u8>)
    ensures
        spec_escape(a + b) == spec_escape(a) + spec_escape(b),
    decreases a.len(),
{
    if a.len() == 0 {
        assert(a + b =~= b);
        assert(spec_escape(a) + spec_escape(b) =~= spec_escape(b));
    } else {
        lemma_escape_concat(a.drop_first(), b);
        assert((a + b).drop_first() =~= a.drop_first() + b);
        assert(spec_escape(a) + spec_escape(b) =~= if is_escaped_byte(a[0]) {
            seq![92u8, escape_code(a[0])] + (spec_escape(a.drop_first()) + spec_escape(b))
        } else {
            seq![a[0]] + (spec_escape(a.drop_first()) + spec_escape(b))
        });
    }
}

/// Escapes a byte string using `vorbiscomment`-style escaping.
pub fn escape_str(value: &Vec<u8>) -> (r: Vec<u8>)
    ensures
        r@ == spec_escape(value@),
{
    let mut result: Vec<u8> = Vec::new();
    let mut i: usize = 0;
    while i < value.len()
        invariant
            i <= value.len(),
            result@ == spec_escape(value@.take(i as int)),
        decreases value.len() - i,
    {
        let b = value[i];
        if b == 0 || b == 10 || b == 13 || b == 92 {
            result.push(92);
            if b == 0 {
                result.push(48);
            } else if b == 10 {
                result.push(110);
            } else if b == 13 {
                result.push(114);
            } else {
                result.push(92);
            }
        } else {
            result.push(b);
        }
        proof {
            let prefix = value@.take(i as int);
            let one = seq![value@[i as int]];
            assert(value@.take(i + 1) =~= prefix + one);
            lemma_escape_concat(prefix, one);
            assert(one.drop_first() =~= Seq::<u8>::empty());
            assert(spec_escape(Seq::<u8>::empty()) =~= Seq::<u8>::empty());
            if is_escaped_byte(value@[i as int]) {
                assert(spec_escape(one) =~= seq![92u8, escape_code(value@[i as int])]);
            } else {
                assert(spec_escape(one) =~= seq![value@[i as int]]);
            }
            assert(result@ =~= spec_escape(value@.take(i + 1)));
        }
        i = i + 1;
    }
    proof {
        assert(value@.take(value@.len() as int) =~= value@);
    }
    result
}

/// Prepends already-decoded bytes to the outcome of decoding the rest.
spec fn unescape_compose(prefix: Seq<u8>, rest: Result<Seq<u8>, EscapeDecodeError>) -> Result<
    Seq<u8>,
    EscapeDecodeError,
> {
    match rest {
        Ok(t) => Ok(prefix + t),
        Err(e) => Err(e),
    }
}

/// Unescapes a byte string, reversing `escape_str`. Fails with
/// `TrailingBackslash` when the input ends in a lone backslash and with
/// `InvalidEscape` when a backslash is followed by an unknown code.
pub fn unescape_str(value: &Vec<u8>) -> (r: Result<Vec<u8>, EscapeDecodeError>)
    ensures
        match r {
            Ok(v) => spec_unescape(value@) == Ok::<Seq<u8>, EscapeDecodeError>(v@),
            Err(e) => spec_unescape(value@) == Err::<Seq<u8>, EscapeDecodeError>(e),
        },
{
    let mut result: Vec<u8> = Vec::new();
    let mut i: usize = 0;
    proof {
        assert(value@.skip(0) =~= value@);
        match spec_unescape(value@) {
            Ok(t) => {
                assert(Seq::<u8>::empty() + t =~= t);
            },
            Err(_) => {},
        }
    }
    while i < value.len()
        invariant
            i <= value.len(),
            unescape_compose(result@, spec_unescape(value@.skip(i as int))) == spec_unescape(
                value@,
            ),
        decreases value.len() - i,
    {
        let ghost rest = value@.skip(i as int);
        let b = value[i];
        proof {
            assert(rest.len() == value@.len() - i);
            assert(rest[0] == value@[i as int]);
        }
        if b == 92 {
            if i + 1 == value.len() {
                proof {
                    assert(rest.len() == 1 && rest[0] == 92);
                }
                return Err(EscapeDecodeError::TrailingBackslash);
            }
            let c = value[i + 1];
            proof {
                assert(rest[1] == value@[i + 1]);
            }
            if c == 48 || c == 110 || c == 114 || c == 92 {
                let decoded: u8 = if c == 48 {
                    0
                } else if c == 110 {
                    10
                } else if c == 114 {
                    13
                } else {
                    92
                };
                let ghost prev = result@;
                result.push(decoded);
                proof {
                    assert(decoded == unescape_code(c));
                    assert(rest.skip(2) =~= value@.skip(i + 2));
                    match spec_unescape(value@.skip(i + 2)) {
                        Ok(t) => {
                            assert(spec_unescape(rest) == Ok::<Seq<u8>, EscapeDecodeError>(
                                seq![unescape_code(c)] + t,
                            ));
                            assert(prev + (seq![unescape_code(c)] + t) =~= result@ + t);
                        },
                        Err(e) => {
                            assert(spec_unescape(rest) == Err::<Seq<u8>, EscapeDecodeError>(e));
                        },
                    }
                }
                i = i + 2;
            } else {
                proof {
                    assert(rest.len() >= 2 && rest[0] == 92 && rest[1] == c);
                }
                return Err(EscapeDecodeError::InvalidEscape(c));
            }
        } else {
            let ghost prev = result@;
            result.push(b);
            proof {
                assert(rest.drop_first() =~= value@.skip(i + 1));
                match spec_unescape(value@.skip(i + 1)) {
                    Ok(t) => {
                        assert(spec_unescape(rest) == Ok::<Seq<u8>, EscapeDecodeError>(
                            seq![b] + t,
                        ));
                        assert(prev + (seq![b] + t) =~= result@ + t);
                    },
                    Err(e) => {
                        assert(spec_unescape(rest) == Err::<Seq<u8>, EscapeDecodeError>(e));
                    },
                }
            }
            i = i + 1;
        }
    }
    proof {
        assert(value@.skip(value@.len() as int) =~= Seq::<u8>::empty());
        assert(result@ + Seq::<u8>::empty() =~= result@);
    }
    Ok(result)
}

/// Escape round trip: unescaping an escaped string always succeeds and gives
/// back the original bytes.
pub proof fn lemma_unescape_escape(s: Seq<u8>)
    ensures
        spec_unescape(spec_escape(s)) == Ok::<Seq<u8>, EscapeDecodeError>(s),
    decreases s.len(),
{
    if s.len() == 0 {
        assert(spec_escape(s) =~= Seq::<u8>::empty());
        assert(s =~= Seq::<u8>::empty());
    } else {
        lemma_unescape_escape(s.drop_first());
        let e = spec_escape(s);
        if is_escaped_byte(s[0]) {
            assert(e[0] == 92 && e[1] == escape_code(s[0]));
            assert(e.skip(2) =~= spec_escape(s.drop_first()));
            assert(seq![unescape_code(escape_code(s[0]))] + s.drop_first() =~= s);
        } else {
            assert(e[0] == s[0] && s[0] != 92);
            assert(e.drop_first() =~= spec_escape(s.drop_first()));
            assert(seq![s[0]] + s.drop_first() =~= s);
        }
    }
}

/// Escaping is the identity on strings that contain none of the special
/// bytes.
pub proof fn lemma_escape_identity(s: Seq<u8>)
    requires
        forall|i: int| 0 <= i < s.len() ==> !is_escaped_byte(s[i]),
    ensures
        spec_escape(s) == s,
    decreases s.len(),
{
    if s.len() == 0 {
        assert(spec_escape(s) =~= s);
    } else {
        lemma_escape_identity(s.drop_first());
        assert(seq![s[0]] + s.drop_first() =~= s);
    }
}

/// Escaping inverts unescaping on well-formed escaped strings whose escapes
/// are minimal, that is, which carry no raw NUL, LF or CR bytes.
pub proof fn lemma_escape_unescape(t: Seq<u8>, s: Seq<u8>)
    requires
        spec_unescape(t) == Ok::<Seq<u8>, EscapeDecodeError>(s),
        forall|i: int| 0 <= i < t.len() ==> !(t[i] == 0 || t[i] == 10 || t[i] == 13),
    ensures
        spec_escape(s) == t,
    decreases t.len(),
{
    if t.len() == 0 {
        assert(spec_escape(s) =~= t);
    } else if t[0] == 92 {
        let c = t[1];
        let rest = t.skip(2);
        let r = spec_unescape(rest)->Ok_0;
        lemma_escape_unescape(rest, r);
        assert(s == seq![unescape_code(c)] + r);
        assert(s.drop_first() =~= r);
        assert(is_escaped_byte(s[0]));
        assert(escape_code(unescape_code(c)) == c);
        assert(seq![92u8, c] + rest =~= t);
    } else {
        let rest = t.drop_first();
        let r = spec_unescape(rest)->Ok_0;
        lemma_escape_unescape(rest, r);
        assert(s == seq![t[0]] + r);
        assert(s.drop_first() =~= r);
        assert(!is_escaped_byte(s[0]));
        assert(seq![t[0]] + rest =~= t);
    }
}

} // verus!
