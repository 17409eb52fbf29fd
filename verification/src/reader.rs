//! The decoder: reads version, values, pairs, metadata and variants from a
//! byte slice, resolving every index against the tables read earlier.
//!
//! Every reader carries an inversion contract: if the bytes at the cursor
//! are the encoding of some model value, the reader returns exactly that
//! value and leaves the cursor just past it. Composed over the whole
//! stream this is the round-trip law: decoding an encoded log gives the
//! log back.
use vstd::prelude::*;

use vstd::bytes::{
    lemma_auto_spec_u32_to_from_le_bytes, lemma_auto_spec_u64_to_from_le_bytes,
    spec_u32_from_le_bytes, spec_u64_from_le_bytes, u32_from_le_bytes, u64_from_le_bytes,
};
use vstd::utf8::{encode_utf8, encode_utf8_decode_utf8, encode_utf8_valid_utf8, valid_utf8};

use crate::errors::{BxesReadError, FailedToReadValueError};
use crate::models::{
    BrafLifecycle, BxesEvent, BxesEventLog, BxesEventView, BxesTraceVariant,
    BxesTraceVariantView, BxesValue, BxesValueView, Lifecycle, StandardLifecycle, braf_of_ordinal, lemma_braf_ordinal_roundtrip,
    lemma_standard_ordinal_roundtrip, opt_attrs, standard_of_ordinal,
};
use crate::spec_format::{
    bytes_at, encode_attr_refs, encode_attrs_block, encode_event, encode_events_list,
    encode_lifecycle, encode_log, encode_metadata_section, encode_pair, encode_pairs_list,
    encode_pairs_section, encode_payload, encode_value, encode_values_list,
    encode_values_section, encode_variant, encode_variants_list, encode_variants_section, i64le,
    lemma_bytes_at_split, lemma_i32_bits_roundtrip, lemma_i64_bits_roundtrip, u32le, u64le,
    wf_value,
};
use crate::type_ids::tag_of;
use crate::walk::{distinct, first_index, log_pairs, log_values};

verus! {

broadcast use vstd::slice::group_slice_axioms;

/// An end-of-input failure at the given offset.
fn eof_error(offset: usize) -> (r: BxesReadError)
    ensures
        r matches BxesReadError::FailedToReadValue(e) && e.offset == offset,
{
    BxesReadError::FailedToReadValue(
        FailedToReadValueError::new(offset, "unexpected end of input".to_owned()),
    )
}

/// Read one byte and advance.
pub fn try_read_u8(bytes: &[u8], pos: &mut usize) -> (r: Result<u8, BxesReadError>)
    ensures
        match r {
            Ok(v) => *old(pos) + 1 <= bytes@.len() && *final(pos) == *old(pos) + 1 && v
                == bytes@[*old(pos) as int],
            Err(e) => *final(pos) == *old(pos) && *old(pos) + 1 > bytes@.len() && (
            e matches BxesReadError::FailedToReadValue(f) && f.offset == *old(pos)),
        },
{
    if *pos < bytes.len() {
        let v = *vstd::slice::slice_index_get(bytes, *pos);
        *pos = *pos + 1;
        Ok(v)
    } else {
        Err(eof_error(*pos))
    }
}

/// Read a little-endian u32 and advance.
pub fn try_read_u32(bytes: &[u8], pos: &mut usize) -> (r: Result<u32, BxesReadError>)
    ensures
        match r {
            Ok(v) => *old(pos) + 4 <= bytes@.len() && *final(pos) == *old(pos) + 4 && v
                == spec_u32_from_le_bytes(
                bytes@.subrange(*old(pos) as int, *old(pos) + 4),
            ),
            Err(e) => *final(pos) == *old(pos) && *old(pos) + 4 > bytes@.len() && (
            e matches BxesReadError::FailedToReadValue(f) && f.offset == *old(pos)),
        },
{
    if *pos <= bytes.len() && bytes.len() - *pos >= 4 {
        let sub = vstd::slice::slice_subrange(bytes, *pos, *pos + 4);
        let v = u32_from_le_bytes(sub);
        *pos = *pos + 4;
        Ok(v)
    } else {
        Err(eof_error(*pos))
    }
}

/// Read a little-endian u64 and advance.
pub fn try_read_u64(bytes: &[u8], pos: &mut usize) -> (r: Result<u64, BxesReadError>)
    ensures
        match r {
            Ok(v) => *old(pos) + 8 <= bytes@.len() && *final(pos) == *old(pos) + 8 && v
                == spec_u64_from_le_bytes(
                bytes@.subrange(*old(pos) as int, *old(pos) + 8),
            ),
            Err(e) => *final(pos) == *old(pos) && *old(pos) + 8 > bytes@.len() && (
            e matches BxesReadError::FailedToReadValue(f) && f.offset == *old(pos)),
        },
{
    if *pos <= bytes.len() && bytes.len() - *pos >= 8 {
        let sub = vstd::slice::slice_subrange(bytes, *pos, *pos + 8);
        let v = u64_from_le_bytes(sub);
        *pos = *pos + 8;
        Ok(v)
    } else {
        Err(eof_error(*pos))
    }
}

/// Read a little-endian i32 (by bit pattern) and advance.
pub fn try_read_i32(bytes: &[u8], pos: &mut usize) -> (r: Result<i32, BxesReadError>)
    ensures
        match r {
            Ok(v) => *old(pos) + 4 <= bytes@.len() && *final(pos) == *old(pos) + 4
                && forall|x: i32|
                bytes_at(bytes@, *old(pos) as int, crate::spec_format::i32le(x)) ==> v == x,
            Err(e) => *final(pos) == *old(pos) && *old(pos) + 4 > bytes@.len() && (
            e matches BxesReadError::FailedToReadValue(f) && f.offset == *old(pos)),
        },
{
    let ghost p = *pos;
    let r = try_read_u32(bytes, pos);
    match r {
        Ok(v) => {
            let out: i32 = #[verifier::truncate] (v as i32);
            proof {
                lemma_auto_spec_u32_to_from_le_bytes();
                assert forall|x: i32|
                    bytes_at(bytes@, p as int, crate::spec_format::i32le(x)) implies out
                    == x by {
                    assert(bytes@.subrange(p as int, p + 4) == u32le(x as u32));
                    assert(v == x as u32);
                    lemma_i32_bits_roundtrip(x);
                }
            }
            Ok(out)
        },
        Err(e) => Err(e),
    }
}

/// Read a little-endian i64 (by bit pattern) and advance.
pub fn try_read_i64(bytes: &[u8], pos: &mut usize) -> (r: Result<i64, BxesReadError>)
    ensures
        match r {
            Ok(v) => *old(pos) + 8 <= bytes@.len() && *final(pos) == *old(pos) + 8
                && forall|x: i64| bytes_at(bytes@, *old(pos) as int, i64le(x)) ==> v == x,
            Err(e) => *final(pos) == *old(pos) && *old(pos) + 8 > bytes@.len() && (
            e matches BxesReadError::FailedToReadValue(f) && f.offset == *old(pos)),
        },
{
    let ghost p = *pos;
    let r = try_read_u64(bytes, pos);
    match r {
        Ok(v) => {
            let out: i64 = #[verifier::truncate] (v as i64);
            proof {
                lemma_auto_spec_u64_to_from_le_bytes();
                assert forall|x: i64| bytes_at(bytes@, p as int, i64le(x)) implies out == x by {
                    assert(bytes@.subrange(p as int, p + 8) == u64le(x as u64));
                    assert(v == x as u64);
                    lemma_i64_bits_roundtrip(x);
                }
            }
            Ok(out)
        },
        Err(e) => Err(e),
    }
}

/// Read one byte as a boolean: zero is false, anything else is true.
pub fn try_read_bool(bytes: &[u8], pos: &mut usize) -> (r: Result<bool, BxesReadError>)
    ensures
        match r {
            Ok(v) => *old(pos) + 1 <= bytes@.len() && *final(pos) == *old(pos) + 1 && v == (
            bytes@[*old(pos) as int] != 0),
            Err(e) => *final(pos) == *old(pos) && *old(pos) + 1 > bytes@.len() && (
            e matches BxesReadError::FailedToReadValue(f) && f.offset == *old(pos)),
        },
{
    match try_read_u8(bytes, pos) {
        Ok(b) => Ok(b != 0),
        Err(e) => Err(e),
    }
}

/// Relies on `String::from_utf8`: it succeeds exactly on valid UTF-8 input
/// and returns the string whose UTF-8 encoding is that input.
#[verifier::external_body]
fn utf8_to_string(bytes: Vec<u8>) -> (r: Option<String>)
    ensures
        match r {
            Some(s) => encode_utf8(s@) == bytes@,
            None => !valid_utf8(bytes@),
        },
{
    match String::from_utf8(bytes) {
        Ok(s) => Some(s),
        Err(_) => None,
    }
}

/// Read a string payload: u64 byte length, then that many UTF-8 bytes.
/// Succeeds exactly when the length-prefixed payload is present and is
/// valid UTF-8; a short stream reports the offset of the failed read, and
/// bad UTF-8 reports the offset of the payload.
pub fn try_read_string(bytes: &[u8], pos: &mut usize) -> (r: Result<String, BxesReadError>)
    ensures
        forall|s: Seq<char>|
            encode_utf8(s).len() <= u64::MAX && bytes_at(
                bytes@,
                *old(pos) as int,
                u64le(encode_utf8(s).len() as u64) + encode_utf8(s),
            ) ==> (r matches Ok(res) && res@ == s && *final(pos) == *old(pos) + 8
                + encode_utf8(s).len()),
        ({
            let p = *old(pos) as int;
            if p + 8 > bytes@.len() {
                r matches Err(e) && (e matches BxesReadError::FailedToReadValue(f) && f.offset
                    == *old(pos)) && *final(pos) == *old(pos)
            } else {
                let n = spec_u64_from_le_bytes(bytes@.subrange(p, p + 8)) as int;
                if n > bytes@.len() - (p + 8) {
                    r matches Err(e) && (e matches BxesReadError::FailedToReadValue(f) && f.offset
                        == *old(pos) + 8) && *final(pos) == *old(pos) + 8
                } else {
                    let payload = bytes@.subrange(p + 8, p + 8 + n);
                    if valid_utf8(payload) {
                        r matches Ok(res) && encode_utf8(res@) == payload && *final(pos) == p + 8
                            + n
                    } else {
                        r matches Err(e) && (e matches BxesReadError::FailedToCreateUtf8String(
                            off,
                        ) && off == *old(pos) + 8) && *final(pos) == *old(pos) + 8
                    }
                }
            }
        }),
{
    let ghost p = *pos;
    proof {
        lemma_auto_spec_u64_to_from_le_bytes();
    }
    let len64 = match try_read_u64(bytes, pos) {
        Ok(v) => v,
        Err(e) => {
            proof {
                assert forall|s: Seq<char>|
                    encode_utf8(s).len() <= u64::MAX && bytes_at(
                        bytes@,
                        p as int,
                        u64le(encode_utf8(s).len() as u64) + encode_utf8(s),
                    ) implies false by {
                    lemma_bytes_at_split(
                        bytes@,
                        p as int,
                        u64le(encode_utf8(s).len() as u64),
                        encode_utf8(s),
                    );
                }
            }
            return Err(e);
        },
    };
    let cur = *pos;
    if len64 > (bytes.len() - cur) as u64 {
        proof {
            assert forall|s: Seq<char>|
                encode_utf8(s).len() <= u64::MAX && bytes_at(
                    bytes@,
                    p as int,
                    u64le(encode_utf8(s).len() as u64) + encode_utf8(s),
                ) implies false by {
                lemma_bytes_at_split(
                    bytes@,
                    p as int,
                    u64le(encode_utf8(s).len() as u64),
                    encode_utf8(s),
                );
                assert(bytes@.subrange(p as int, p + 8) == u64le(encode_utf8(s).len() as u64));
                assert(len64 == encode_utf8(s).len() as u64);
            }
        }
        return Err(eof_error(cur));
    }
    let len: usize = len64 as usize;
    let sub = vstd::slice::slice_subrange(bytes, cur, cur + len);
    let payload = vstd::slice::slice_to_vec(sub);
    match utf8_to_string(payload) {
        Some(res) => {
            *pos = cur + len;
            proof {
                encode_utf8_valid_utf8(res@);
                assert forall|s: Seq<char>|
                    encode_utf8(s).len() <= u64::MAX && bytes_at(
                        bytes@,
                        p as int,
                        u64le(encode_utf8(s).len() as u64) + encode_utf8(s),
                    ) implies res@ == s && *pos == p + 8 + encode_utf8(s).len() by {
                    lemma_bytes_at_split(
                        bytes@,
                        p as int,
                        u64le(encode_utf8(s).len() as u64),
                        encode_utf8(s),
                    );
                    assert(bytes@.subrange(p as int, p + 8) == u64le(
                        encode_utf8(s).len() as u64,
                    ));
                    assert(len64 == encode_utf8(s).len() as u64);
                    assert(bytes@.subrange(cur as int, cur + len) == encode_utf8(s));
                    assert(encode_utf8(res@) == encode_utf8(s));
                    encode_utf8_decode_utf8(res@);
                    encode_utf8_decode_utf8(s);
                }
            }
            Ok(res)
        },
        None => {
            proof {
                assert forall|s: Seq<char>|
                    encode_utf8(s).len() <= u64::MAX && bytes_at(
                        bytes@,
                        p as int,
                        u64le(encode_utf8(s).len() as u64) + encode_utf8(s),
                    ) implies false by {
                    lemma_bytes_at_split(
                        bytes@,
                        p as int,
                        u64le(encode_utf8(s).len() as u64),
                        encode_utf8(s),
                    );
                    assert(bytes@.subrange(p as int, p + 8) == u64le(
                        encode_utf8(s).len() as u64,
                    ));
                    assert(len64 == encode_utf8(s).len() as u64);
                    assert(bytes@.subrange(cur as int, cur + len) == encode_utf8(s));
                    encode_utf8_valid_utf8(s);
                }
            }
            Err(BxesReadError::FailedToCreateUtf8String(cur))
        },
    }
}

/// Which tag bytes the core schema knows.
pub open spec fn known_tag(t: u8) -> bool {
    t <= 10
}

proof fn lemma_tag_range(m: BxesValueView)
    ensures
        known_tag(tag_of(m)),
{
}

/// Read one tagged value.
#[verifier::rlimit(60)]
pub fn try_read_bxes_value(bytes: &[u8], pos: &mut usize) -> (r: Result<
    BxesValue,
    BxesReadError,
>)
    ensures
        forall|m: BxesValueView|
            wf_value(m) && bytes_at(bytes@, *old(pos) as int, #[trigger] encode_value(m)) ==> (
            r matches Ok(v) && v@ == m && *final(pos) == *old(pos) + encode_value(m).len()),
        *old(pos) < bytes@.len() && !known_tag(bytes@[*old(pos) as int]) ==> (r matches Err(e)
            && e matches BxesReadError::FailedToParseTypeId(t) && t == bytes@[*old(pos) as int]
            && *final(pos) == *old(pos) + 1),
        *old(pos) + 2 <= bytes@.len() && bytes@[*old(pos) as int] == 9 && bytes@[*old(pos) + 1]
            > 19 ==> (r matches Err(e) && e is LifecycleOfEventOutOfRange && *final(pos) == *old(
            pos,
        ) + 2),
        *old(pos) + 2 <= bytes@.len() && bytes@[*old(pos) as int] == 10 && bytes@[*old(pos) + 1]
            > 13 ==> (r matches Err(e) && e is LifecycleOfEventOutOfRange && *final(pos) == *old(
            pos,
        ) + 2),
{
    let ghost p = *pos;
    proof {
        lemma_auto_spec_u32_to_from_le_bytes();
        lemma_auto_spec_u64_to_from_le_bytes();
        assert forall|m: BxesValueView|
            bytes_at(bytes@, p as int, #[trigger] encode_value(m)) implies bytes_at(
            bytes@,
            p as int,
            seq![tag_of(m)],
        ) && bytes_at(bytes@, p + 1, encode_payload(m)) && bytes@[p as int] == tag_of(m) by {
            lemma_bytes_at_split(bytes@, p as int, seq![tag_of(m)], encode_payload(m));
            assert(bytes@.subrange(p as int, p + 1)[0] == tag_of(m));
        }
    }
    let tag = match try_read_u8(bytes, pos) {
        Ok(t) => t,
        Err(e) => {
            return Err(e);
        },
    };
    if tag == 0 {
        proof {
            assert forall|m: BxesValueView|
                wf_value(m) && bytes_at(bytes@, p as int, #[trigger] encode_value(m)) implies (
            m matches BxesValueView::Int32(x) && bytes_at(
                bytes@,
                p + 1,
                crate::spec_format::i32le(x),
            )) by {}
        }
        match try_read_i32(bytes, pos) {
            Ok(v) => Ok(BxesValue::Int32(v)),
            Err(e) => Err(e),
        }
    } else if tag == 1 {
        proof {
            assert forall|m: BxesValueView|
                wf_value(m) && bytes_at(bytes@, p as int, #[trigger] encode_value(m)) implies (
            m matches BxesValueView::Int64(x) && bytes_at(bytes@, p + 1, i64le(x))) by {}
        }
        match try_read_i64(bytes, pos) {
            Ok(v) => Ok(BxesValue::Int64(v)),
            Err(e) => Err(e),
        }
    } else if tag == 2 {
        proof {
            assert forall|m: BxesValueView|
                wf_value(m) && bytes_at(bytes@, p as int, #[trigger] encode_value(m)) implies (
            m matches BxesValueView::Uint32(x) && bytes_at(bytes@, p + 1, u32le(x))) by {}
        }
        match try_read_u32(bytes, pos) {
            Ok(v) => {
                proof {
                    assert forall|m: BxesValueView|
                        wf_value(m) && bytes_at(
                            bytes@,
                            p as int,
                            #[trigger] encode_value(m),
                        ) implies m == BxesValueView::Uint32(v) by {
                        if let BxesValueView::Uint32(x) = m {
                            assert(bytes@.subrange(p + 1, p + 5) == u32le(x));
                        }
                    }
                }
                Ok(BxesValue::Uint32(v))
            },
            Err(e) => Err(e),
        }
    } else if tag == 3 {
        proof {
            assert forall|m: BxesValueView|
                wf_value(m) && bytes_at(bytes@, p as int, #[trigger] encode_value(m)) implies (
            m matches BxesValueView::Uint64(x) && bytes_at(bytes@, p + 1, u64le(x))) by {}
        }
        match try_read_u64(bytes, pos) {
            Ok(v) => {
                proof {
                    assert forall|m: BxesValueView|
                        wf_value(m) && bytes_at(
                            bytes@,
                            p as int,
                            #[trigger] encode_value(m),
                        ) implies m == BxesValueView::Uint64(v) by {
                        if let BxesValueView::Uint64(x) = m {
                            assert(bytes@.subrange(p + 1, p + 9) == u64le(x));
                        }
                    }
                }
                Ok(BxesValue::Uint64(v))
            },
            Err(e) => Err(e),
        }
    } else if tag == 4 {
        proof {
            assert forall|m: BxesValueView|
                wf_value(m) && bytes_at(bytes@, p as int, #[trigger] encode_value(m)) implies (
            m matches BxesValueView::Float32(x) && bytes_at(bytes@, p + 1, u32le(x))) by {}
        }
        match try_read_u32(bytes, pos) {
            Ok(v) => {
                proof {
                    assert forall|m: BxesValueView|
                        wf_value(m) && bytes_at(
                            bytes@,
                            p as int,
                            #[trigger] encode_value(m),
                        ) implies m == BxesValueView::Float32(v) by {
                        if let BxesValueView::Float32(x) = m {
                            assert(bytes@.subrange(p + 1, p + 5) == u32le(x));
                        }
                    }
                }
                Ok(BxesValue::Float32(v))
            },
            Err(e) => Err(e),
        }
    } else if tag == 5 {
        proof {
            assert forall|m: BxesValueView|
                wf_value(m) && bytes_at(bytes@, p as int, #[trigger] encode_value(m)) implies (
            m matches BxesValueView::Float64(x) && bytes_at(bytes@, p + 1, u64le(x))) by {}
        }
        match try_read_u64(bytes, pos) {
            Ok(v) => {
                proof {
                    assert forall|m: BxesValueView|
                        wf_value(m) && bytes_at(
                            bytes@,
                            p as int,
                            #[trigger] encode_value(m),
                        ) implies m == BxesValueView::Float64(v) by {
                        if let BxesValueView::Float64(x) = m {
                            assert(bytes@.subrange(p + 1, p + 9) == u64le(x));
                        }
                    }
                }
                Ok(BxesValue::Float64(v))
            },
            Err(e) => Err(e),
        }
    } else if tag == 6 {
        proof {
            assert forall|m: BxesValueView|
                wf_value(m) && bytes_at(bytes@, p as int, #[trigger] encode_value(m)) implies (
            m matches BxesValueView::Str(s) && encode_utf8(s).len() <= u64::MAX && bytes_at(
                bytes@,
                p + 1,
                u64le(encode_utf8(s).len() as u64) + encode_utf8(s),
            )) by {}
        }
        match try_read_string(bytes, pos) {
            Ok(s) => Ok(BxesValue::String(s)),
            Err(e) => Err(e),
        }
    } else if tag == 7 {
        proof {
            assert forall|m: BxesValueView|
                wf_value(m) && bytes_at(bytes@, p as int, #[trigger] encode_value(m)) implies (
            m matches BxesValueView::Bool(x) && bytes_at(
                bytes@,
                p + 1,
                seq![crate::spec_format::bool_byte(x)],
            ) && bytes@[p + 1] == crate::spec_format::bool_byte(x)) by {
                if let BxesValueView::Bool(x) = m {
                    assert(bytes@.subrange(p + 1, p + 2)[0] == crate::spec_format::bool_byte(x));
                }
            }
        }
        match try_read_bool(bytes, pos) {
            Ok(b) => Ok(BxesValue::Bool(b)),
            Err(e) => Err(e),
        }
    } else if tag == 8 {
        proof {
            assert forall|m: BxesValueView|
                wf_value(m) && bytes_at(bytes@, p as int, #[trigger] encode_value(m)) implies (
            m matches BxesValueView::Timestamp(x) && bytes_at(bytes@, p + 1, i64le(x))) by {}
        }
        match try_read_i64(bytes, pos) {
            Ok(v) => Ok(BxesValue::Timestamp(v)),
            Err(e) => Err(e),
        }
    } else if tag == 9 {
        proof {
            assert forall|m: BxesValueView|
                wf_value(m) && bytes_at(bytes@, p as int, #[trigger] encode_value(m)) implies (
            m matches BxesValueView::BrafLifecycle(lb) && bytes@[p + 1]
                == crate::models::spec_braf_ordinal(lb) && p + 2 <= bytes@.len()) by {
                if let BxesValueView::BrafLifecycle(lb) = m {
                    assert(bytes@.subrange(p + 1, p + 2)[0] == crate::models::spec_braf_ordinal(
                        lb,
                    ));
                }
            }
        }
        let o = match try_read_u8(bytes, pos) {
            Ok(o) => o,
            Err(e) => {
                return Err(e);
            },
        };
        match braf_of_ordinal(o) {
            Some(l) => {
                proof {
                    assert forall|m: BxesValueView|
                        wf_value(m) && bytes_at(
                            bytes@,
                            p as int,
                            #[trigger] encode_value(m),
                        ) implies m == BxesValueView::BrafLifecycle(l) by {
                        if let BxesValueView::BrafLifecycle(lb) = m {
                            lemma_braf_ordinal_roundtrip(lb);
                        }
                    }
                }
                Ok(BxesValue::BrafLifecycle(l))
            },
            None => {
                proof {
                    assert forall|m: BxesValueView|
                        wf_value(m) && bytes_at(
                            bytes@,
                            p as int,
                            #[trigger] encode_value(m),
                        ) implies false by {
                        if let BxesValueView::BrafLifecycle(lb) = m {
                            lemma_braf_ordinal_roundtrip(lb);
                        }
                    }
                }
                Err(BxesReadError::LifecycleOfEventOutOfRange)
            },
        }
    } else if tag == 10 {
        proof {
            assert forall|m: BxesValueView|
                wf_value(m) && bytes_at(bytes@, p as int, #[trigger] encode_value(m)) implies (
            m matches BxesValueView::StandardLifecycle(lb) && bytes@[p + 1]
                == crate::models::spec_standard_ordinal(lb) && p + 2 <= bytes@.len()) by {
                if let BxesValueView::StandardLifecycle(lb) = m {
                    assert(bytes@.subrange(p + 1, p + 2)[0]
                        == crate::models::spec_standard_ordinal(lb));
                }
            }
        }
        let o = match try_read_u8(bytes, pos) {
            Ok(o) => o,
            Err(e) => {
                return Err(e);
            },
        };
        match standard_of_ordinal(o) {
            Some(l) => {
                proof {
                    assert forall|m: BxesValueView|
                        wf_value(m) && bytes_at(
                            bytes@,
                            p as int,
                            #[trigger] encode_value(m),
                        ) implies m == BxesValueView::StandardLifecycle(l) by {
                        if let BxesValueView::StandardLifecycle(lb) = m {
                            lemma_standard_ordinal_roundtrip(lb);
                        }
                    }
                }
                Ok(BxesValue::StandardLifecycle(l))
            },
            None => {
                proof {
                    assert forall|m: BxesValueView|
                        wf_value(m) && bytes_at(
                            bytes@,
                            p as int,
                            #[trigger] encode_value(m),
                        ) implies false by {
                        if let BxesValueView::StandardLifecycle(lb) = m {
                            lemma_standard_ordinal_roundtrip(lb);
                        }
                    }
                }
                Err(BxesReadError::LifecycleOfEventOutOfRange)
            },
        }
    } else {
        proof {
            assert forall|m: BxesValueView|
                wf_value(m) && bytes_at(bytes@, p as int, #[trigger] encode_value(m)) implies false by {
                lemma_tag_range(m);
            }
        }
        Err(BxesReadError::FailedToParseTypeId(tag))
    }
}

/// The bytes at `p` are the values section of `vs`, and `vs` is readable:
/// count fits u32, every value respects the machine limits.
pub open spec fn values_section_match(b: Seq<u8>, p: int, vs: Seq<BxesValueView>) -> bool {
    &&& vs.len() <= u32::MAX
    &&& forall|k: int| 0 <= k < vs.len() ==> wf_value(#[trigger] vs[k])
    &&& bytes_at(b, p, encode_values_section(vs))
}

/// The bytes at `p` are the pairs section of `ps` over the table `vals`.
pub open spec fn pairs_section_match(
    b: Seq<u8>,
    p: int,
    vals: Seq<BxesValueView>,
    ps: Seq<(BxesValueView, BxesValueView)>,
) -> bool {
    &&& ps.len() <= u32::MAX
    &&& bytes_at(b, p, encode_pairs_section(vals, ps))
}

/// Read the values section: a count, then that many tagged values.
#[verifier::loop_isolation(false)]
pub fn try_read_values(bytes: &[u8], pos: &mut usize) -> (r: Result<
    Vec<BxesValue>,
    BxesReadError,
>)
    ensures
        forall|vs: Seq<BxesValueView>|
            #[trigger] values_section_match(bytes@, *old(pos) as int, vs) ==> (r matches Ok(out)
                && out.deep_view() == vs && *final(pos) == *old(pos) + 4 + encode_values_list(
                vs,
            ).len()),
        r matches Ok(out) ==> *old(pos) + 4 <= bytes@.len() && out@.len()
            == spec_u32_from_le_bytes(bytes@.subrange(*old(pos) as int, *old(pos) + 4)),
{
    let ghost p = *pos;
    proof {
        lemma_auto_spec_u32_to_from_le_bytes();
        assert forall|vs: Seq<BxesValueView>| #[trigger] values_section_match(
            bytes@,
            p as int,
            vs,
        ) implies bytes_at(bytes@, p as int, u32le(vs.len() as u32)) && bytes_at(
            bytes@,
            p + 4,
            encode_values_list(vs),
        ) by {
            lemma_bytes_at_split(bytes@, p as int, u32le(vs.len() as u32), encode_values_list(vs));
        }
    }
    let count = match try_read_u32(bytes, pos) {
        Ok(c) => c,
        Err(e) => {
            return Err(e);
        },
    };
    let mut out: Vec<BxesValue> = Vec::new();
    let mut i: u32 = 0;
    while i < count
        invariant
            i <= count,
            out@.len() == i,
            forall|vs: Seq<BxesValueView>|
                #[trigger] values_section_match(bytes@, p as int, vs) ==> (count == vs.len()
                    && i <= vs.len() && out.deep_view() == vs.take(i as int) && *pos == p + 4
                    + encode_values_list(vs.take(i as int)).len()),
        decreases count - i,
    {
        proof {
            assert forall|vs: Seq<BxesValueView>| #[trigger] values_section_match(
                bytes@,
                p as int,
                vs,
            ) implies wf_value(vs[i as int]) && bytes_at(
                bytes@,
                *pos as int,
                encode_value(vs[i as int]),
            ) by {
                lemma_bytes_at_split(
                    bytes@,
                    p as int,
                    u32le(vs.len() as u32),
                    encode_values_list(vs),
                );
                assert(vs.take(i as int) + vs.skip(i as int) =~= vs);
                crate::spec_format::lemma_values_list_app(vs.take(i as int), vs.skip(i as int));
                lemma_bytes_at_split(
                    bytes@,
                    p + 4,
                    encode_values_list(vs.take(i as int)),
                    encode_values_list(vs.skip(i as int)),
                );
                assert(vs.skip(i as int)[0] == vs[i as int]);
                assert(vs.skip(i as int).drop_first() =~= vs.skip(i as int + 1));
                assert(encode_values_list(vs.skip(i as int)) == encode_value(vs[i as int])
                    + encode_values_list(vs.skip(i as int + 1)));
                lemma_bytes_at_split(
                    bytes@,
                    p + 4 + encode_values_list(vs.take(i as int)).len(),
                    encode_value(vs[i as int]),
                    encode_values_list(vs.skip(i as int + 1)),
                );
            }
        }
        match try_read_bxes_value(bytes, pos) {
            Ok(v) => {
                let ghost out_before = out.deep_view();
                out.push(v);
                proof {
                    assert forall|vs: Seq<BxesValueView>| #[trigger] values_section_match(
                        bytes@,
                        p as int,
                        vs,
                    ) implies out.deep_view() == vs.take(i as int + 1) && *pos == p + 4
                        + encode_values_list(vs.take(i as int + 1)).len() by {
                        assert(out.deep_view() =~= out_before.push(v@));
                        assert(vs.take(i as int).push(vs[i as int]) =~= vs.take(i as int + 1));
                        assert(vs.take(i as int) + seq![vs[i as int]] =~= vs.take(i as int + 1));
                        crate::spec_format::lemma_values_list_app(
                            vs.take(i as int),
                            seq![vs[i as int]],
                        );
                        reveal_with_fuel(encode_values_list, 2);
                        assert(seq![vs[i as int]].drop_first() =~= Seq::<BxesValueView>::empty());
                        assert(encode_values_list(seq![vs[i as int]]) =~= encode_value(
                            vs[i as int],
                        ));
                    }
                }
                i = i + 1;
            },
            Err(e) => {
                proof {
                    assert forall|vs: Seq<BxesValueView>| #[trigger] values_section_match(
                        bytes@,
                        p as int,
                        vs,
                    ) implies false by {}
                }
                return Err(e);
            },
        }
    }
    proof {
        assert forall|vs: Seq<BxesValueView>| #[trigger] values_section_match(
            bytes@,
            p as int,
            vs,
        ) implies out.deep_view() == vs && *pos == p + 4 + encode_values_list(vs).len() by {
            assert(vs.take(vs.len() as int) =~= vs);
        }
    }
    Ok(out)
}

/// Read the pairs section: a count, then two u32 value indices per pair.
#[verifier::loop_isolation(false)]
pub fn try_read_key_values(bytes: &[u8], pos: &mut usize) -> (r: Result<
    Vec<(u32, u32)>,
    BxesReadError,
>)
    ensures
        forall|vals: Seq<BxesValueView>, ps: Seq<(BxesValueView, BxesValueView)>|
            #[trigger] pairs_section_match(bytes@, *old(pos) as int, vals, ps) ==> (r matches Ok(
                out,
            ) && out@ == crate::spec_format::pair_indices(vals, ps) && *final(pos) == *old(pos)
                + 4 + encode_pairs_list(vals, ps).len()),
        r matches Ok(out) ==> ({
            let p = *old(pos) as int;
            &&& p + 4 <= bytes@.len()
            &&& out@.len() == spec_u32_from_le_bytes(bytes@.subrange(p, p + 4))
            &&& p + 4 + 8 * out@.len() <= bytes@.len()
            &&& *final(pos) == p + 4 + 8 * out@.len()
            &&& forall|i: int|
                0 <= i < out@.len() ==> #[trigger] out@[i] == (
                    spec_u32_from_le_bytes(bytes@.subrange(p + 4 + 8 * i, p + 8 + 8 * i)),
                    spec_u32_from_le_bytes(bytes@.subrange(p + 8 + 8 * i, p + 12 + 8 * i)),
                )
        }),
        r matches Err(e) ==> (e matches BxesReadError::FailedToReadValue(f) && f.offset
            == *final(pos)),
{
    let ghost p = *pos;
    proof {
        lemma_auto_spec_u32_to_from_le_bytes();
        assert forall|vals: Seq<BxesValueView>, ps: Seq<(BxesValueView, BxesValueView)>| #[trigger] pairs_section_match(
            bytes@,
            p as int,
            vals,
            ps,
        ) implies bytes_at(bytes@, p as int, u32le(ps.len() as u32)) && bytes_at(
            bytes@,
            p + 4,
            encode_pairs_list(vals, ps),
        ) by {
            lemma_bytes_at_split(
                bytes@,
                p as int,
                u32le(ps.len() as u32),
                encode_pairs_list(vals, ps),
            );
        }
    }
    let count = match try_read_u32(bytes, pos) {
        Ok(c) => c,
        Err(e) => {
            return Err(e);
        },
    };
    let mut out: Vec<(u32, u32)> = Vec::new();
    let mut i: u32 = 0;
    while i < count
        invariant
            i <= count,
            out@.len() == i,
            *pos == p + 4 + 8 * i,
            *pos <= bytes@.len(),
            forall|j: int|
                0 <= j < i ==> #[trigger] out@[j] == (
                    spec_u32_from_le_bytes(bytes@.subrange(p + 4 + 8 * j, p + 8 + 8 * j)),
                    spec_u32_from_le_bytes(bytes@.subrange(p + 8 + 8 * j, p + 12 + 8 * j)),
                ),
            forall|vals: Seq<BxesValueView>, ps: Seq<(BxesValueView, BxesValueView)>|
                #[trigger] pairs_section_match(bytes@, p as int, vals, ps) ==> (count == ps.len()
                    && i <= ps.len() && out@ == crate::spec_format::pair_indices(vals, ps).take(
                    i as int,
                ) && *pos == p + 4 + encode_pairs_list(vals, ps.take(i as int)).len()),
        decreases count - i,
    {
        proof {
            assert forall|vals: Seq<BxesValueView>, ps: Seq<(BxesValueView, BxesValueView)>| #[trigger] pairs_section_match(
                bytes@,
                p as int,
                vals,
                ps,
            ) implies bytes_at(
                bytes@,
                *pos as int,
                u32le(first_index(vals, ps[i as int].0) as u32),
            ) && bytes_at(
                bytes@,
                *pos + 4,
                u32le(first_index(vals, ps[i as int].1) as u32),
            ) by {
                lemma_bytes_at_split(
                    bytes@,
                    p as int,
                    u32le(ps.len() as u32),
                    encode_pairs_list(vals, ps),
                );
                assert(ps.take(i as int) + ps.skip(i as int) =~= ps);
                crate::spec_format::lemma_pairs_list_app(
                    vals,
                    ps.take(i as int),
                    ps.skip(i as int),
                );
                lemma_bytes_at_split(
                    bytes@,
                    p + 4,
                    encode_pairs_list(vals, ps.take(i as int)),
                    encode_pairs_list(vals, ps.skip(i as int)),
                );
                assert(ps.skip(i as int)[0] == ps[i as int]);
                assert(ps.skip(i as int).drop_first() =~= ps.skip(i as int + 1));
                assert(encode_pairs_list(vals, ps.skip(i as int)) == encode_pair(
                    vals,
                    ps[i as int],
                ) + encode_pairs_list(vals, ps.skip(i as int + 1)));
                lemma_bytes_at_split(
                    bytes@,
                    p + 4 + encode_pairs_list(vals, ps.take(i as int)).len(),
                    encode_pair(vals, ps[i as int]),
                    encode_pairs_list(vals, ps.skip(i as int + 1)),
                );
                lemma_bytes_at_split(
                    bytes@,
                    p + 4 + encode_pairs_list(vals, ps.take(i as int)).len(),
                    u32le(first_index(vals, ps[i as int].0) as u32),
                    u32le(first_index(vals, ps[i as int].1) as u32),
                );
            }
        }
        let ki = match try_read_u32(bytes, pos) {
            Ok(v) => v,
            Err(e) => {
                proof {
                    assert forall|
                        vals: Seq<BxesValueView>,
                        ps: Seq<(BxesValueView, BxesValueView)>,
                    | #[trigger] pairs_section_match(bytes@, p as int, vals, ps) implies false by {}
                }
                return Err(e);
            },
        };
        let vi = match try_read_u32(bytes, pos) {
            Ok(v) => v,
            Err(e) => {
                proof {
                    assert forall|
                        vals: Seq<BxesValueView>,
                        ps: Seq<(BxesValueView, BxesValueView)>,
                    | #[trigger] pairs_section_match(bytes@, p as int, vals, ps) implies false by {}
                }
                return Err(e);
            },
        };
        let ghost out_before = out@;
        out.push((ki, vi));
        proof {
            assert forall|vals: Seq<BxesValueView>, ps: Seq<(BxesValueView, BxesValueView)>| #[trigger] pairs_section_match(
                bytes@,
                p as int,
                vals,
                ps,
            ) implies out@ == crate::spec_format::pair_indices(vals, ps).take(i as int + 1)
                && *pos == p + 4 + encode_pairs_list(vals, ps.take(i as int + 1)).len() by {
                assert(out@ =~= out_before.push((ki, vi)));
                assert(crate::spec_format::pair_indices(vals, ps)[i as int] == (
                    first_index(vals, ps[i as int].0) as u32,
                    first_index(vals, ps[i as int].1) as u32,
                ));
                assert(crate::spec_format::pair_indices(vals, ps).take(i as int).push(
                    crate::spec_format::pair_indices(vals, ps)[i as int],
                ) =~= crate::spec_format::pair_indices(vals, ps).take(i as int + 1));
                assert(ps.take(i as int) + seq![ps[i as int]] =~= ps.take(i as int + 1));
                crate::spec_format::lemma_pairs_list_app(
                    vals,
                    ps.take(i as int),
                    seq![ps[i as int]],
                );
                reveal_with_fuel(encode_pairs_list, 2);
                assert(seq![ps[i as int]].drop_first() =~= Seq::<
                    (BxesValueView, BxesValueView),
                >::empty());
                assert(encode_pairs_list(vals, seq![ps[i as int]]) =~= encode_pair(
                    vals,
                    ps[i as int],
                ));
            }
        }
        i = i + 1;
    }
    proof {
        assert forall|vals: Seq<BxesValueView>, ps: Seq<(BxesValueView, BxesValueView)>| #[trigger] pairs_section_match(
            bytes@,
            p as int,
            vals,
            ps,
        ) implies out@ == crate::spec_format::pair_indices(vals, ps) && *pos == p + 4
            + encode_pairs_list(vals, ps).len() by {
            assert(ps.take(ps.len() as int) =~= ps);
            assert(crate::spec_format::pair_indices(vals, ps).take(ps.len() as int)
                =~= crate::spec_format::pair_indices(vals, ps));
        }
    }
    Ok(out)
}

/// The values and raw pairs read earlier stand for tables `vals` and `ps`:
/// same entries, distinct, index pairs resolved through `vals`, every pair
/// half present in the values table.
pub open spec fn tables_loaded(
    values: Seq<BxesValueView>,
    raw_pairs: Seq<(u32, u32)>,
    vals: Seq<BxesValueView>,
    ps: Seq<(BxesValueView, BxesValueView)>,
) -> bool {
    &&& values == vals
    &&& raw_pairs == crate::spec_format::pair_indices(vals, ps)
    &&& distinct(vals)
    &&& distinct(ps)
    &&& vals.len() <= u32::MAX
    &&& ps.len() <= u32::MAX
    &&& forall|k: int|
        0 <= k < ps.len() ==> vals.contains((#[trigger] ps[k]).0) && vals.contains(ps[k].1)
}

/// The bytes at `p` are the pair index of attribute `a`, and the tables can
/// resolve it to a string-keyed pair.
pub open spec fn pair_ref_match(
    b: Seq<u8>,
    p: int,
    values: Seq<BxesValueView>,
    raw_pairs: Seq<(u32, u32)>,
    vals: Seq<BxesValueView>,
    ps: Seq<(BxesValueView, BxesValueView)>,
    a: (BxesValueView, BxesValueView),
) -> bool {
    &&& tables_loaded(values, raw_pairs, vals, ps)
    &&& ps.contains(a)
    &&& a.0 is Str
    &&& bytes_at(b, p, u32le(first_index(ps, a) as u32))
}

/// Read one attribute reference: a pair index, resolved to its key and
/// value through the tables.
pub fn try_read_kv_pair(
    bytes: &[u8],
    pos: &mut usize,
    values: &Vec<BxesValue>,
    kv_pairs: &Vec<(u32, u32)>,
) -> (r: Result<(BxesValue, BxesValue), BxesReadError>)
    ensures
        forall|
            vals: Seq<BxesValueView>,
            ps: Seq<(BxesValueView, BxesValueView)>,
            a: (BxesValueView, BxesValueView),
        |
            #[trigger] pair_ref_match(
                bytes@,
                *old(pos) as int,
                values.deep_view(),
                kv_pairs@,
                vals,
                ps,
                a,
            ) ==> (r matches Ok(kv) && kv.0@ == a.0 && kv.1@ == a.1 && *final(pos) == *old(pos)
                + 4),
        ({
            let p = *old(pos) as int;
            if p + 4 > bytes@.len() {
                r matches Err(e) && (e matches BxesReadError::FailedToReadValue(f) && f.offset
                    == *old(pos)) && *final(pos) == *old(pos)
            } else {
                let idx = spec_u32_from_le_bytes(bytes@.subrange(p, p + 4)) as int;
                *final(pos) == *old(pos) + 4 && if idx >= kv_pairs@.len() {
                    r matches Err(e) && (e matches BxesReadError::FailedToIndexKeyValue(i) && i
                        == idx)
                } else {
                    let ki = kv_pairs@[idx].0 as int;
                    let vi = kv_pairs@[idx].1 as int;
                    if ki >= values@.len() {
                        r matches Err(e) && (e matches BxesReadError::FailedToIndexValue(i) && i
                            == ki)
                    } else if !(values@[ki]@ is Str) {
                        r matches Err(e) && e is EventAttributeKeyIsNotAString
                    } else if vi >= values@.len() {
                        r matches Err(e) && (e matches BxesReadError::FailedToIndexValue(i) && i
                            == vi)
                    } else {
                        r matches Ok(kv) && kv.0@ == values@[ki]@ && kv.1@ == values@[vi]@
                    }
                }
            }
        }),
{
    let ghost p = *pos;
    proof {
        lemma_auto_spec_u32_to_from_le_bytes();
        assert forall|
            vals: Seq<BxesValueView>,
            ps: Seq<(BxesValueView, BxesValueView)>,
            a: (BxesValueView, BxesValueView),
        |
            #[trigger] pair_ref_match(
                bytes@,
                p as int,
                values.deep_view(),
                kv_pairs@,
                vals,
                ps,
                a,
            ) implies 0 <= first_index(ps, a) < ps.len() && ps[first_index(ps, a)] == a
            && kv_pairs@.len() == ps.len() && values@.len() == vals.len() by {
            crate::walk::lemma_first_index_works(ps, a);
            assert(values.deep_view().len() == values@.len());
        }
    }
    let idx32 = match try_read_u32(bytes, pos) {
        Ok(v) => v,
        Err(e) => {
            return Err(e);
        },
    };
    let idx = idx32 as usize;
    if idx >= kv_pairs.len() {
        return Err(BxesReadError::FailedToIndexKeyValue(idx));
    }
    let rp = kv_pairs[idx];
    proof {
        assert forall|
            vals: Seq<BxesValueView>,
            ps: Seq<(BxesValueView, BxesValueView)>,
            a: (BxesValueView, BxesValueView),
        |
            #[trigger] pair_ref_match(
                bytes@,
                p as int,
                values.deep_view(),
                kv_pairs@,
                vals,
                ps,
                a,
            ) implies idx == first_index(ps, a) && rp == (
            first_index(vals, a.0) as u32,
            first_index(vals, a.1) as u32,
        ) && 0 <= first_index(vals, a.0) < vals.len() && vals[first_index(vals, a.0)] == a.0
            && 0 <= first_index(vals, a.1) < vals.len() && vals[first_index(vals, a.1)] == a.1 by {
            crate::walk::lemma_first_index_works(ps, a);
            assert(kv_pairs@[idx as int] == crate::spec_format::pair_indices(vals, ps)[
                idx as int
            ]);
            assert(ps[idx as int] == a);
            let k = first_index(ps, a);
            assert(vals.contains(ps[k].0) && vals.contains(ps[k].1));
            crate::walk::lemma_first_index_works(vals, a.0);
            crate::walk::lemma_first_index_works(vals, a.1);
        }
    }
    let key_idx = rp.0 as usize;
    if key_idx >= values.len() {
        return Err(BxesReadError::FailedToIndexValue(key_idx));
    }
    let key_ref = &values[key_idx];
    let is_string = match key_ref {
        BxesValue::String(_) => true,
        _ => false,
    };
    if !is_string {
        proof {
            assert forall|
                vals: Seq<BxesValueView>,
                ps: Seq<(BxesValueView, BxesValueView)>,
                a: (BxesValueView, BxesValueView),
            |
                #[trigger] pair_ref_match(
                    bytes@,
                    p as int,
                    values.deep_view(),
                    kv_pairs@,
                    vals,
                    ps,
                    a,
                ) implies false by {
                assert(key_ref@ == vals[first_index(vals, a.0)]);
                assert(key_ref@ is Str);
            }
        }
        return Err(BxesReadError::EventAttributeKeyIsNotAString);
    }
    let key = key_ref.clone();
    let val_idx = rp.1 as usize;
    if val_idx >= values.len() {
        return Err(BxesReadError::FailedToIndexValue(val_idx));
    }
    let value = values[val_idx].clone();
    proof {
        assert forall|
            vals: Seq<BxesValueView>,
            ps: Seq<(BxesValueView, BxesValueView)>,
            a: (BxesValueView, BxesValueView),
        |
            #[trigger] pair_ref_match(
                bytes@,
                p as int,
                values.deep_view(),
                kv_pairs@,
                vals,
                ps,
                a,
            ) implies key@ == a.0 && value@ == a.1 by {
            assert(key@ == vals[first_index(vals, a.0)]);
            assert(value@ == vals[first_index(vals, a.1)]);
        }
    }
    Ok((key, value))
}

/// The bytes at `p` are the attribute block of `attrs`, every attribute is
/// interned with a string key, and the count fits u32.
pub open spec fn attrs_block_match(
    b: Seq<u8>,
    p: int,
    values: Seq<BxesValueView>,
    raw_pairs: Seq<(u32, u32)>,
    vals: Seq<BxesValueView>,
    ps: Seq<(BxesValueView, BxesValueView)>,
    attrs: Seq<(BxesValueView, BxesValueView)>,
) -> bool {
    &&& tables_loaded(values, raw_pairs, vals, ps)
    &&& attrs.len() <= u32::MAX
    &&& forall|k: int|
        0 <= k < attrs.len() ==> ps.contains(#[trigger] attrs[k]) && attrs[k].0 is Str
    &&& bytes_at(b, p, encode_attrs_block(ps, attrs))
}

/// What an optional attribute list decodes to: a count of zero is absence.
pub open spec fn opt_of_attrs(attrs: Seq<(BxesValueView, BxesValueView)>) -> Option<
    Seq<(BxesValueView, BxesValueView)>,
> {
    if attrs.len() == 0 {
        Option::None
    } else {
        Option::Some(attrs)
    }
}

/// Read one attribute list: a count, then that many pair indices. A count
/// of zero is normalised to absence.
#[verifier::loop_isolation(false)]
pub fn try_read_event_attributes(
    bytes: &[u8],
    pos: &mut usize,
    values: &Vec<BxesValue>,
    kv_pairs: &Vec<(u32, u32)>,
) -> (r: Result<Option<Vec<(BxesValue, BxesValue)>>, BxesReadError>)
    ensures
        forall|
            vals: Seq<BxesValueView>,
            ps: Seq<(BxesValueView, BxesValueView)>,
            attrs: Seq<(BxesValueView, BxesValueView)>,
        |
            #[trigger] attrs_block_match(
                bytes@,
                *old(pos) as int,
                values.deep_view(),
                kv_pairs@,
                vals,
                ps,
                attrs,
            ) ==> (r matches Ok(res) && res.deep_view() == opt_of_attrs(attrs) && *final(pos)
                == *old(pos) + 4 + encode_attr_refs(ps, attrs).len()),
        r matches Ok(res) ==> *old(pos) + 4 <= bytes@.len() && ({
            let c = spec_u32_from_le_bytes(bytes@.subrange(*old(pos) as int, *old(pos) + 4));
            &&& (res is None <==> c == 0)
            &&& (res matches Some(list) ==> list@.len() == c)
        }),
{
    let ghost p = *pos;
    proof {
        lemma_auto_spec_u32_to_from_le_bytes();
        assert forall|
            vals: Seq<BxesValueView>,
            ps: Seq<(BxesValueView, BxesValueView)>,
            attrs: Seq<(BxesValueView, BxesValueView)>,
        |
            #[trigger] attrs_block_match(
                bytes@,
                p as int,
                values.deep_view(),
                kv_pairs@,
                vals,
                ps,
                attrs,
            ) implies bytes_at(bytes@, p as int, u32le(attrs.len() as u32)) && bytes_at(
            bytes@,
            p + 4,
            encode_attr_refs(ps, attrs),
        ) by {
            lemma_bytes_at_split(
                bytes@,
                p as int,
                u32le(attrs.len() as u32),
                encode_attr_refs(ps, attrs),
            );
        }
    }
    let count = match try_read_u32(bytes, pos) {
        Ok(c) => c,
        Err(e) => {
            return Err(e);
        },
    };
    if count == 0 {
        proof {
            assert forall|
                vals: Seq<BxesValueView>,
                ps: Seq<(BxesValueView, BxesValueView)>,
                attrs: Seq<(BxesValueView, BxesValueView)>,
            |
                #[trigger] attrs_block_match(
                    bytes@,
                    p as int,
                    values.deep_view(),
                    kv_pairs@,
                    vals,
                    ps,
                    attrs,
                ) implies attrs.len() == 0 && encode_attr_refs(ps, attrs).len() == 0 by {}
        }
        return Ok(None);
    }
    let mut out: Vec<(BxesValue, BxesValue)> = Vec::new();
    let mut i: u32 = 0;
    while i < count
        invariant
            i <= count,
            out@.len() == i,
            forall|
                vals: Seq<BxesValueView>,
                ps: Seq<(BxesValueView, BxesValueView)>,
                attrs: Seq<(BxesValueView, BxesValueView)>,
            |
                #[trigger] attrs_block_match(
                    bytes@,
                    p as int,
                    values.deep_view(),
                    kv_pairs@,
                    vals,
                    ps,
                    attrs,
                ) ==> (count == attrs.len() && i <= attrs.len() && out.deep_view() == attrs.take(
                    i as int,
                ) && *pos == p + 4 + encode_attr_refs(ps, attrs.take(i as int)).len()),
        decreases count - i,
    {
        let ghost pos_before = *pos;
        proof {
            assert forall|
                vals: Seq<BxesValueView>,
                ps: Seq<(BxesValueView, BxesValueView)>,
                attrs: Seq<(BxesValueView, BxesValueView)>,
            |
                #[trigger] attrs_block_match(
                    bytes@,
                    p as int,
                    values.deep_view(),
                    kv_pairs@,
                    vals,
                    ps,
                    attrs,
                ) implies pair_ref_match(
                bytes@,
                pos_before as int,
                values.deep_view(),
                kv_pairs@,
                vals,
                ps,
                attrs[i as int],
            ) by {
                lemma_bytes_at_split(
                    bytes@,
                    p as int,
                    u32le(attrs.len() as u32),
                    encode_attr_refs(ps, attrs),
                );
                assert(attrs.take(i as int) + attrs.skip(i as int) =~= attrs);
                crate::spec_format::lemma_attr_refs_app(
                    ps,
                    attrs.take(i as int),
                    attrs.skip(i as int),
                );
                lemma_bytes_at_split(
                    bytes@,
                    p + 4,
                    encode_attr_refs(ps, attrs.take(i as int)),
                    encode_attr_refs(ps, attrs.skip(i as int)),
                );
                assert(attrs.skip(i as int)[0] == attrs[i as int]);
                assert(attrs.skip(i as int).drop_first() =~= attrs.skip(i as int + 1));
                assert(encode_attr_refs(ps, attrs.skip(i as int)) == u32le(
                    first_index(ps, attrs[i as int]) as u32,
                ) + encode_attr_refs(ps, attrs.skip(i as int + 1)));
                lemma_bytes_at_split(
                    bytes@,
                    p + 4 + encode_attr_refs(ps, attrs.take(i as int)).len(),
                    u32le(first_index(ps, attrs[i as int]) as u32),
                    encode_attr_refs(ps, attrs.skip(i as int + 1)),
                );
            }
        }
        match try_read_kv_pair(bytes, pos, values, kv_pairs) {
            Ok(kv) => {
                let ghost out_before = out.deep_view();
                out.push(kv);
                proof {
                    assert forall|
                        vals: Seq<BxesValueView>,
                        ps: Seq<(BxesValueView, BxesValueView)>,
                        attrs: Seq<(BxesValueView, BxesValueView)>,
                    |
                        #[trigger] attrs_block_match(
                            bytes@,
                            p as int,
                            values.deep_view(),
                            kv_pairs@,
                            vals,
                            ps,
                            attrs,
                        ) implies out.deep_view() == attrs.take(i as int + 1) && *pos == p + 4
                        + encode_attr_refs(ps, attrs.take(i as int + 1)).len() by {
                        assert(out.deep_view() =~= out_before.push((kv.0@, kv.1@)));
                        assert((kv.0@, kv.1@) == attrs[i as int]);
                        assert(attrs.take(i as int).push(attrs[i as int]) =~= attrs.take(
                            i as int + 1,
                        ));
                        assert(attrs.take(i as int) + seq![attrs[i as int]] =~= attrs.take(
                            i as int + 1,
                        ));
                        crate::spec_format::lemma_attr_refs_app(
                            ps,
                            attrs.take(i as int),
                            seq![attrs[i as int]],
                        );
                        reveal_with_fuel(encode_attr_refs, 2);
                        assert(seq![attrs[i as int]].drop_first() =~= Seq::<
                            (BxesValueView, BxesValueView),
                        >::empty());
                        assert(encode_attr_refs(ps, seq![attrs[i as int]]) =~= u32le(
                            first_index(ps, attrs[i as int]) as u32,
                        ));
                    }
                }
                i = i + 1;
            },
            Err(e) => {
                return Err(e);
            },
        }
    }
    proof {
        assert forall|
            vals: Seq<BxesValueView>,
            ps: Seq<(BxesValueView, BxesValueView)>,
            attrs: Seq<(BxesValueView, BxesValueView)>,
        |
            #[trigger] attrs_block_match(
                bytes@,
                p as int,
                values.deep_view(),
                kv_pairs@,
                vals,
                ps,
                attrs,
            ) implies Some(out).deep_view() == opt_of_attrs(attrs) && *pos == p + 4
            + encode_attr_refs(ps, attrs).len() by {
            assert(attrs.take(attrs.len() as int) =~= attrs);
            assert(out.deep_view() == attrs);
        }
    }
    Ok(Some(out))
}

/// Read the metadata section: the log's attribute list.
pub fn try_read_event_log_metadata(
    bytes: &[u8],
    pos: &mut usize,
    values: &Vec<BxesValue>,
    kv_pairs: &Vec<(u32, u32)>,
) -> (r: Result<Option<Vec<(BxesValue, BxesValue)>>, BxesReadError>)
    ensures
        forall|
            vals: Seq<BxesValueView>,
            ps: Seq<(BxesValueView, BxesValueView)>,
            attrs: Seq<(BxesValueView, BxesValueView)>,
        |
            #[trigger] attrs_block_match(
                bytes@,
                *old(pos) as int,
                values.deep_view(),
                kv_pairs@,
                vals,
                ps,
                attrs,
            ) ==> (r matches Ok(res) && res.deep_view() == opt_of_attrs(attrs) && *final(pos)
                == *old(pos) + 4 + encode_attr_refs(ps, attrs).len()),
        r matches Ok(res) ==> *old(pos) + 4 <= bytes@.len() && ({
            let c = spec_u32_from_le_bytes(bytes@.subrange(*old(pos) as int, *old(pos) + 4));
            &&& (res is None <==> c == 0)
            &&& (res matches Some(list) ==> list@.len() == c)
        }),
{
    try_read_event_attributes(bytes, pos, values, kv_pairs)
}

/// The tables can resolve everything this event references.
pub open spec fn event_refs_loaded(
    vals: Seq<BxesValueView>,
    ps: Seq<(BxesValueView, BxesValueView)>,
    e: BxesEventView,
) -> bool {
    &&& vals.contains(e.name)
    &&& forall|k: int|
        0 <= k < opt_attrs(e.attributes).len() ==> ps.contains(
            #[trigger] opt_attrs(e.attributes)[k],
        )
}

/// The event name reference at `p` resolves through the values table to a
/// string value.
pub open spec fn name_ref_is_string(b: Seq<u8>, p: int, vals: Seq<BxesValueView>) -> bool {
    &&& p + 4 <= b.len()
    &&& spec_u32_from_le_bytes(b.subrange(p, p + 4)) < vals.len()
    &&& vals[spec_u32_from_le_bytes(b.subrange(p, p + 4)) as int] is Str
}

/// The bytes at `p` are the encoding of event `e` over the loaded tables.
pub open spec fn event_match(
    b: Seq<u8>,
    p: int,
    values: Seq<BxesValueView>,
    raw_pairs: Seq<(u32, u32)>,
    vals: Seq<BxesValueView>,
    ps: Seq<(BxesValueView, BxesValueView)>,
    e: BxesEventView,
) -> bool {
    &&& tables_loaded(values, raw_pairs, vals, ps)
    &&& crate::spec_format::wf_event(e)
    &&& event_refs_loaded(vals, ps, e)
    &&& bytes_at(b, p, encode_event(vals, ps, e))
}

/// Read one event: name index, timestamp, lifecycle value, attributes.
#[verifier::rlimit(60)]
pub fn try_read_event(
    bytes: &[u8],
    pos: &mut usize,
    values: &Vec<BxesValue>,
    kv_pairs: &Vec<(u32, u32)>,
) -> (r: Result<BxesEvent, BxesReadError>)
    ensures
        forall|vals: Seq<BxesValueView>, ps: Seq<(BxesValueView, BxesValueView)>, e: BxesEventView|
            #[trigger] event_match(
                bytes@,
                *old(pos) as int,
                values.deep_view(),
                kv_pairs@,
                vals,
                ps,
                e,
            ) ==> (r matches Ok(ev) && ev@ == e && *final(pos) == *old(pos) + encode_event(
                vals,
                ps,
                e,
            ).len()),
        ({
            let p = *old(pos) as int;
            if p + 4 > bytes@.len() {
                r matches Err(e) && (e matches BxesReadError::FailedToReadValue(f) && f.offset
                    == *old(pos))
            } else {
                let idx = spec_u32_from_le_bytes(bytes@.subrange(p, p + 4)) as int;
                if idx >= values@.len() {
                    r matches Err(e) && (e matches BxesReadError::FailedToIndexValue(i) && i
                        == idx)
                } else if !(values@[idx]@ is Str) {
                    r matches Err(e) && e is NameOfEventIsNotAString
                } else {
                    true
                }
            }
        }),
        forall|m: BxesValueView|
            name_ref_is_string(bytes@, *old(pos) as int, values.deep_view()) && wf_value(m) && !(
            m is BrafLifecycle) && !(m is StandardLifecycle) && bytes_at(
                bytes@,
                *old(pos) + 12,
                #[trigger] encode_value(m),
            ) ==> (r matches Err(e) && e is LifecycleOfEventOutOfRange),
        name_ref_is_string(bytes@, *old(pos) as int, values.deep_view()) && *old(pos) + 14
            <= bytes@.len() && ((bytes@[*old(pos) + 12] == 9 && bytes@[*old(pos) + 13] > 19) || (
        bytes@[*old(pos) + 12] == 10 && bytes@[*old(pos) + 13] > 13)) ==> (r matches Err(e) && e
            is LifecycleOfEventOutOfRange),
{
    let ghost p = *pos;
    proof {
        lemma_auto_spec_u32_to_from_le_bytes();
        lemma_auto_spec_u64_to_from_le_bytes();
        assert forall|
            vals: Seq<BxesValueView>,
            ps: Seq<(BxesValueView, BxesValueView)>,
            e: BxesEventView,
        |
            #[trigger] event_match(
                bytes@,
                p as int,
                values.deep_view(),
                kv_pairs@,
                vals,
                ps,
                e,
            ) implies bytes_at(bytes@, p as int, u32le(first_index(vals, e.name) as u32))
            && bytes_at(bytes@, p + 4, i64le(e.timestamp)) && bytes_at(
            bytes@,
            p + 12,
            encode_value(crate::models::lifecycle_view(e.lifecycle)),
        ) && bytes_at(
            bytes@,
            p + 14,
            encode_attrs_block(ps, opt_attrs(e.attributes)),
        ) && 0 <= first_index(vals, e.name) < vals.len() && vals[first_index(vals, e.name)]
            == e.name && values@.len() == vals.len() && crate::spec_format::wf_value(
            crate::models::lifecycle_view(e.lifecycle),
        ) by {
            crate::spec_format::lemma_encode_lifecycle_len(e.lifecycle);
            lemma_bytes_at_split(
                bytes@,
                p as int,
                u32le(first_index(vals, e.name) as u32) + i64le(e.timestamp) + encode_lifecycle(
                    e.lifecycle,
                ),
                encode_attrs_block(ps, opt_attrs(e.attributes)),
            );
            lemma_bytes_at_split(
                bytes@,
                p as int,
                u32le(first_index(vals, e.name) as u32) + i64le(e.timestamp),
                encode_lifecycle(e.lifecycle),
            );
            lemma_bytes_at_split(
                bytes@,
                p as int,
                u32le(first_index(vals, e.name) as u32),
                i64le(e.timestamp),
            );
            crate::walk::lemma_first_index_works(vals, e.name);
            assert(values.deep_view().len() == values@.len());
            match e.lifecycle {
                Lifecycle::Braf(_) => {},
                Lifecycle::Standard(_) => {},
            }
        }
    }
    let name_idx32 = match try_read_u32(bytes, pos) {
        Ok(v) => v,
        Err(e) => {
            return Err(e);
        },
    };
    let name_idx = name_idx32 as usize;
    if name_idx >= values.len() {
        return Err(BxesReadError::FailedToIndexValue(name_idx));
    }
    let name_ref = &values[name_idx];
    let name_is_string = match name_ref {
        BxesValue::String(_) => true,
        _ => false,
    };
    if !name_is_string {
        proof {
            assert forall|
                vals: Seq<BxesValueView>,
                ps: Seq<(BxesValueView, BxesValueView)>,
                e: BxesEventView,
            |
                #[trigger] event_match(
                    bytes@,
                    p as int,
                    values.deep_view(),
                    kv_pairs@,
                    vals,
                    ps,
                    e,
                ) implies false by {
                assert(name_idx == first_index(vals, e.name));
                assert(name_ref@ == e.name);
            }
        }
        return Err(BxesReadError::NameOfEventIsNotAString);
    }
    let name = name_ref.clone();
    let timestamp = match try_read_i64(bytes, pos) {
        Ok(v) => v,
        Err(e) => {
            return Err(e);
        },
    };
    let lifecycle_value = match try_read_bxes_value(bytes, pos) {
        Ok(v) => v,
        Err(e) => {
            return Err(e);
        },
    };
    let lifecycle = match lifecycle_value {
        BxesValue::BrafLifecycle(b) => Lifecycle::Braf(b),
        BxesValue::StandardLifecycle(s) => Lifecycle::Standard(s),
        _ => {
            proof {
                assert forall|
                    vals: Seq<BxesValueView>,
                    ps: Seq<(BxesValueView, BxesValueView)>,
                    e: BxesEventView,
                |
                    #[trigger] event_match(
                        bytes@,
                        p as int,
                        values.deep_view(),
                        kv_pairs@,
                        vals,
                        ps,
                        e,
                    ) implies false by {
                    assert(lifecycle_value@ == crate::models::lifecycle_view(e.lifecycle));
                    match e.lifecycle {
                        Lifecycle::Braf(_) => {},
                        Lifecycle::Standard(_) => {},
                    }
                }
            }
            return Err(BxesReadError::LifecycleOfEventOutOfRange);
        },
    };
    let ghost pos_attrs = *pos;
    proof {
        assert forall|
            vals: Seq<BxesValueView>,
            ps: Seq<(BxesValueView, BxesValueView)>,
            e: BxesEventView,
        |
            #[trigger] event_match(
                bytes@,
                p as int,
                values.deep_view(),
                kv_pairs@,
                vals,
                ps,
                e,
            ) implies pos_attrs == p + 14 && attrs_block_match(
            bytes@,
            pos_attrs as int,
            values.deep_view(),
            kv_pairs@,
            vals,
            ps,
            opt_attrs(e.attributes),
        ) by {
            crate::spec_format::lemma_encode_lifecycle_len(e.lifecycle);
            assert(lifecycle_value@ == crate::models::lifecycle_view(e.lifecycle));
        }
    }
    let attributes = match try_read_event_attributes(bytes, pos, values, kv_pairs) {
        Ok(a) => a,
        Err(e) => {
            return Err(e);
        },
    };
    let ev = BxesEvent { name, timestamp, lifecycle, attributes };
    proof {
        assert forall|
            vals: Seq<BxesValueView>,
            ps: Seq<(BxesValueView, BxesValueView)>,
            e: BxesEventView,
        |
            #[trigger] event_match(
                bytes@,
                p as int,
                values.deep_view(),
                kv_pairs@,
                vals,
                ps,
                e,
            ) implies ev@ == e && *pos == p + encode_event(vals, ps, e).len() by {
            crate::spec_format::lemma_encode_lifecycle_len(e.lifecycle);
            assert(ev@.name == e.name);
            assert(lifecycle_value@ == crate::models::lifecycle_view(e.lifecycle));
            assert(ev@.lifecycle == e.lifecycle) by {
                match e.lifecycle {
                    Lifecycle::Braf(_) => {},
                    Lifecycle::Standard(_) => {},
                }
            }
            assert(ev@.attributes == e.attributes) by {
                assert(attributes.deep_view() == opt_of_attrs(opt_attrs(e.attributes)));
                match e.attributes {
                    Option::None => {},
                    Option::Some(s) => {
                        assert(s.len() > 0);
                    },
                }
            }
        }
    }
    Ok(ev)
}

/// The bytes at `p` are the encoding of variant `v` over the loaded tables.
pub open spec fn variant_match(
    b: Seq<u8>,
    p: int,
    values: Seq<BxesValueView>,
    raw_pairs: Seq<(u32, u32)>,
    vals: Seq<BxesValueView>,
    ps: Seq<(BxesValueView, BxesValueView)>,
    v: BxesTraceVariantView,
) -> bool {
    &&& tables_loaded(values, raw_pairs, vals, ps)
    &&& crate::spec_format::wf_variant(v)
    &&& forall|j: int| 0 <= j < v.events.len() ==> event_refs_loaded(vals, ps, #[trigger] v.events[j])
    &&& bytes_at(b, p, encode_variant(vals, ps, v))
}

/// Read one trace variant: multiplicity, event count, events.
#[verifier::loop_isolation(false)]
pub fn try_read_trace_variant(
    bytes: &[u8],
    pos: &mut usize,
    values: &Vec<BxesValue>,
    kv_pairs: &Vec<(u32, u32)>,
) -> (r: Result<BxesTraceVariant, BxesReadError>)
    ensures
        forall|
            vals: Seq<BxesValueView>,
            ps: Seq<(BxesValueView, BxesValueView)>,
            v: BxesTraceVariantView,
        |
            #[trigger] variant_match(
                bytes@,
                *old(pos) as int,
                values.deep_view(),
                kv_pairs@,
                vals,
                ps,
                v,
            ) ==> (r matches Ok(tv) && tv@ == v && *final(pos) == *old(pos) + encode_variant(
                vals,
                ps,
                v,
            ).len()),
{
    let ghost p = *pos;
    proof {
        lemma_auto_spec_u32_to_from_le_bytes();
        assert forall|
            vals: Seq<BxesValueView>,
            ps: Seq<(BxesValueView, BxesValueView)>,
            v: BxesTraceVariantView,
        |
            #[trigger] variant_match(
                bytes@,
                p as int,
                values.deep_view(),
                kv_pairs@,
                vals,
                ps,
                v,
            ) implies bytes_at(bytes@, p as int, u32le(v.traces_count)) && bytes_at(
            bytes@,
            p + 4,
            u32le(v.events.len() as u32),
        ) && bytes_at(bytes@, p + 8, encode_events_list(vals, ps, v.events)) by {
            lemma_bytes_at_split(
                bytes@,
                p as int,
                u32le(v.traces_count) + u32le(v.events.len() as u32),
                encode_events_list(vals, ps, v.events),
            );
            lemma_bytes_at_split(
                bytes@,
                p as int,
                u32le(v.traces_count),
                u32le(v.events.len() as u32),
            );
        }
    }
    let traces_count = match try_read_u32(bytes, pos) {
        Ok(c) => c,
        Err(e) => {
            return Err(e);
        },
    };
    let events_count = match try_read_u32(bytes, pos) {
        Ok(c) => c,
        Err(e) => {
            return Err(e);
        },
    };
    let mut events: Vec<BxesEvent> = Vec::new();
    let mut j: u32 = 0;
    while j < events_count
        invariant
            j <= events_count,
            forall|
                vals: Seq<BxesValueView>,
                ps: Seq<(BxesValueView, BxesValueView)>,
                v: BxesTraceVariantView,
            |
                #[trigger] variant_match(
                    bytes@,
                    p as int,
                    values.deep_view(),
                    kv_pairs@,
                    vals,
                    ps,
                    v,
                ) ==> (traces_count == v.traces_count && events_count == v.events.len() && j
                    <= v.events.len() && events.deep_view() == v.events.take(j as int) && *pos
                    == p + 8 + encode_events_list(vals, ps, v.events.take(j as int)).len()),
        decreases events_count - j,
    {
        let ghost pos_before = *pos;
        proof {
            assert forall|
                vals: Seq<BxesValueView>,
                ps: Seq<(BxesValueView, BxesValueView)>,
                v: BxesTraceVariantView,
            |
                #[trigger] variant_match(
                    bytes@,
                    p as int,
                    values.deep_view(),
                    kv_pairs@,
                    vals,
                    ps,
                    v,
                ) implies event_match(
                bytes@,
                pos_before as int,
                values.deep_view(),
                kv_pairs@,
                vals,
                ps,
                v.events[j as int],
            ) by {
                assert(v.events.take(j as int) + v.events.skip(j as int) =~= v.events);
                crate::spec_format::lemma_events_list_app(
                    vals,
                    ps,
                    v.events.take(j as int),
                    v.events.skip(j as int),
                );
                lemma_bytes_at_split(
                    bytes@,
                    p + 8,
                    encode_events_list(vals, ps, v.events.take(j as int)),
                    encode_events_list(vals, ps, v.events.skip(j as int)),
                );
                assert(v.events.skip(j as int)[0] == v.events[j as int]);
                assert(v.events.skip(j as int).drop_first() =~= v.events.skip(j as int + 1));
                assert(encode_events_list(vals, ps, v.events.skip(j as int)) == encode_event(
                    vals,
                    ps,
                    v.events[j as int],
                ) + encode_events_list(vals, ps, v.events.skip(j as int + 1)));
                lemma_bytes_at_split(
                    bytes@,
                    p + 8 + encode_events_list(vals, ps, v.events.take(j as int)).len(),
                    encode_event(vals, ps, v.events[j as int]),
                    encode_events_list(vals, ps, v.events.skip(j as int + 1)),
                );
            }
        }
        match try_read_event(bytes, pos, values, kv_pairs) {
            Ok(ev) => {
                let ghost events_before = events.deep_view();
                events.push(ev);
                proof {
                    assert forall|
                        vals: Seq<BxesValueView>,
                        ps: Seq<(BxesValueView, BxesValueView)>,
                        v: BxesTraceVariantView,
                    |
                        #[trigger] variant_match(
                            bytes@,
                            p as int,
                            values.deep_view(),
                            kv_pairs@,
                            vals,
                            ps,
                            v,
                        ) implies events.deep_view() == v.events.take(j as int + 1) && *pos == p
                        + 8 + encode_events_list(vals, ps, v.events.take(j as int + 1)).len() by {
                        assert(events.deep_view() =~= events_before.push(ev@));
                        assert(v.events.take(j as int).push(v.events[j as int]) =~= v.events.take(
                            j as int + 1,
                        ));
                        assert(v.events.take(j as int) + seq![v.events[j as int]]
                            =~= v.events.take(j as int + 1));
                        crate::spec_format::lemma_events_list_app(
                            vals,
                            ps,
                            v.events.take(j as int),
                            seq![v.events[j as int]],
                        );
                        reveal_with_fuel(encode_events_list, 2);
                        assert(seq![v.events[j as int]].drop_first() =~= Seq::<
                            BxesEventView,
                        >::empty());
                        assert(encode_events_list(vals, ps, seq![v.events[j as int]])
                            =~= encode_event(vals, ps, v.events[j as int]));
                    }
                }
                j = j + 1;
            },
            Err(e) => {
                return Err(e);
            },
        }
    }
    let tv = BxesTraceVariant { traces_count, events };
    proof {
        assert forall|
            vals: Seq<BxesValueView>,
            ps: Seq<(BxesValueView, BxesValueView)>,
            v: BxesTraceVariantView,
        |
            #[trigger] variant_match(
                bytes@,
                p as int,
                values.deep_view(),
                kv_pairs@,
                vals,
                ps,
                v,
            ) implies tv@ == v && *pos == p + encode_variant(vals, ps, v).len() by {
            assert(v.events.take(v.events.len() as int) =~= v.events);
        }
    }
    Ok(tv)
}

/// The bytes at `p` are the variants section of `vars` over the tables.
pub open spec fn variants_section_match(
    b: Seq<u8>,
    p: int,
    values: Seq<BxesValueView>,
    raw_pairs: Seq<(u32, u32)>,
    vals: Seq<BxesValueView>,
    ps: Seq<(BxesValueView, BxesValueView)>,
    vars: Seq<BxesTraceVariantView>,
) -> bool {
    &&& tables_loaded(values, raw_pairs, vals, ps)
    &&& vars.len() <= u32::MAX
    &&& forall|i: int| 0 <= i < vars.len() ==> crate::spec_format::wf_variant(#[trigger] vars[i])
    &&& forall|i: int, j: int|
        0 <= i < vars.len() && 0 <= j < vars[i].events.len() ==> event_refs_loaded(
            vals,
            ps,
            #[trigger] vars[i].events[j],
        )
    &&& bytes_at(b, p, encode_variants_section(vals, ps, vars))
}

/// Read the variants section: a count, then that many trace variants.
#[verifier::loop_isolation(false)]
pub fn try_read_traces_variants(
    bytes: &[u8],
    pos: &mut usize,
    values: &Vec<BxesValue>,
    kv_pairs: &Vec<(u32, u32)>,
) -> (r: Result<Vec<BxesTraceVariant>, BxesReadError>)
    ensures
        forall|
            vals: Seq<BxesValueView>,
            ps: Seq<(BxesValueView, BxesValueView)>,
            vars: Seq<BxesTraceVariantView>,
        |
            #[trigger] variants_section_match(
                bytes@,
                *old(pos) as int,
                values.deep_view(),
                kv_pairs@,
                vals,
                ps,
                vars,
            ) ==> (r matches Ok(out) && out.deep_view() == vars && *final(pos) == *old(pos) + 4
                + encode_variants_list(vals, ps, vars).len()),
        r matches Ok(out) ==> *old(pos) + 4 <= bytes@.len() && out@.len()
            == spec_u32_from_le_bytes(bytes@.subrange(*old(pos) as int, *old(pos) + 4)),
{
    let ghost p = *pos;
    proof {
        lemma_auto_spec_u32_to_from_le_bytes();
        assert forall|
            vals: Seq<BxesValueView>,
            ps: Seq<(BxesValueView, BxesValueView)>,
            vars: Seq<BxesTraceVariantView>,
        |
            #[trigger] variants_section_match(
                bytes@,
                p as int,
                values.deep_view(),
                kv_pairs@,
                vals,
                ps,
                vars,
            ) implies bytes_at(bytes@, p as int, u32le(vars.len() as u32)) && bytes_at(
            bytes@,
            p + 4,
            encode_variants_list(vals, ps, vars),
        ) by {
            lemma_bytes_at_split(
                bytes@,
                p as int,
                u32le(vars.len() as u32),
                encode_variants_list(vals, ps, vars),
            );
        }
    }
    let count = match try_read_u32(bytes, pos) {
        Ok(c) => c,
        Err(e) => {
            return Err(e);
        },
    };
    let mut out: Vec<BxesTraceVariant> = Vec::new();
    let mut i: u32 = 0;
    while i < count
        invariant
            i <= count,
            out@.len() == i,
            forall|
                vals: Seq<BxesValueView>,
                ps: Seq<(BxesValueView, BxesValueView)>,
                vars: Seq<BxesTraceVariantView>,
            |
                #[trigger] variants_section_match(
                    bytes@,
                    p as int,
                    values.deep_view(),
                    kv_pairs@,
                    vals,
                    ps,
                    vars,
                ) ==> (count == vars.len() && i <= vars.len() && out.deep_view() == vars.take(
                    i as int,
                ) && *pos == p + 4 + encode_variants_list(vals, ps, vars.take(i as int)).len()),
        decreases count - i,
    {
        let ghost pos_before = *pos;
        proof {
            assert forall|
                vals: Seq<BxesValueView>,
                ps: Seq<(BxesValueView, BxesValueView)>,
                vars: Seq<BxesTraceVariantView>,
            |
                #[trigger] variants_section_match(
                    bytes@,
                    p as int,
                    values.deep_view(),
                    kv_pairs@,
                    vals,
                    ps,
                    vars,
                ) implies variant_match(
                bytes@,
                pos_before as int,
                values.deep_view(),
                kv_pairs@,
                vals,
                ps,
                vars[i as int],
            ) by {
                assert(vars.take(i as int) + vars.skip(i as int) =~= vars);
                crate::spec_format::lemma_variants_list_app(
                    vals,
                    ps,
                    vars.take(i as int),
                    vars.skip(i as int),
                );
                lemma_bytes_at_split(
                    bytes@,
                    p + 4,
                    encode_variants_list(vals, ps, vars.take(i as int)),
                    encode_variants_list(vals, ps, vars.skip(i as int)),
                );
                assert(vars.skip(i as int)[0] == vars[i as int]);
                assert(vars.skip(i as int).drop_first() =~= vars.skip(i as int + 1));
                assert(encode_variants_list(vals, ps, vars.skip(i as int)) == encode_variant(
                    vals,
                    ps,
                    vars[i as int],
                ) + encode_variants_list(vals, ps, vars.skip(i as int + 1)));
                lemma_bytes_at_split(
                    bytes@,
                    p + 4 + encode_variants_list(vals, ps, vars.take(i as int)).len(),
                    encode_variant(vals, ps, vars[i as int]),
                    encode_variants_list(vals, ps, vars.skip(i as int + 1)),
                );
            }
        }
        match try_read_trace_variant(bytes, pos, values, kv_pairs) {
            Ok(tv) => {
                let ghost out_before = out.deep_view();
                out.push(tv);
                proof {
                    assert forall|
                        vals: Seq<BxesValueView>,
                        ps: Seq<(BxesValueView, BxesValueView)>,
                        vars: Seq<BxesTraceVariantView>,
                    |
                        #[trigger] variants_section_match(
                            bytes@,
                            p as int,
                            values.deep_view(),
                            kv_pairs@,
                            vals,
                            ps,
                            vars,
                        ) implies out.deep_view() == vars.take(i as int + 1) && *pos == p + 4
                        + encode_variants_list(vals, ps, vars.take(i as int + 1)).len() by {
                        assert(out.deep_view() =~= out_before.push(tv@));
                        assert(vars.take(i as int).push(vars[i as int]) =~= vars.take(
                            i as int + 1,
                        ));
                        assert(vars.take(i as int) + seq![vars[i as int]] =~= vars.take(
                            i as int + 1,
                        ));
                        crate::spec_format::lemma_variants_list_app(
                            vals,
                            ps,
                            vars.take(i as int),
                            seq![vars[i as int]],
                        );
                        reveal_with_fuel(encode_variants_list, 2);
                        assert(seq![vars[i as int]].drop_first() =~= Seq::<
                            BxesTraceVariantView,
                        >::empty());
                        assert(encode_variants_list(vals, ps, seq![vars[i as int]])
                            =~= encode_variant(vals, ps, vars[i as int]));
                    }
                }
                i = i + 1;
            },
            Err(e) => {
                return Err(e);
            },
        }
    }
    proof {
        assert forall|
            vals: Seq<BxesValueView>,
            ps: Seq<(BxesValueView, BxesValueView)>,
            vars: Seq<BxesTraceVariantView>,
        |
            #[trigger] variants_section_match(
                bytes@,
                p as int,
                values.deep_view(),
                kv_pairs@,
                vals,
                ps,
                vars,
            ) implies out.deep_view() == vars && *pos == p + 4 + encode_variants_list(
            vals,
            ps,
            vars,
        ).len() by {
            assert(vars.take(vars.len() as int) =~= vars);
        }
    }
    Ok(out)
}

/// Decode a whole single-file stream.
///
/// The central inversion guarantee: if the input is the encoding of any
/// well-formed log, decoding returns exactly that log.
#[verifier::rlimit(100)]
pub fn decode_bxes(bytes: &[u8]) -> (r: Result<BxesEventLog, BxesReadError>)
    ensures
        forall|l: crate::models::BxesEventLogView|
            crate::spec_format::wf_log(l) && bytes@ == #[trigger] encode_log(l) ==> (r matches Ok(
                log,
            ) && log@ == l),
        bytes@.len() < 4 ==> (r matches Err(e) && (e matches BxesReadError::FailedToReadValue(f)
            && f.offset == 0)),
        r matches Ok(log) ==> bytes@.len() >= 4 && log.version == spec_u32_from_le_bytes(
            bytes@.subrange(0, 4),
        ),
{
    let mut pos: usize = 0;
    proof {
        lemma_auto_spec_u32_to_from_le_bytes();
        assert forall|l: crate::models::BxesEventLogView|
            crate::spec_format::wf_log(l) && bytes@ == #[trigger] encode_log(
                l,
            ) implies bytes_at(bytes@, 0, u32le(l.version)) && values_section_match(
            bytes@,
            4,
            log_values(l),
        ) && bytes_at(
            bytes@,
            4 + encode_values_section(log_values(l)).len() as int,
            encode_pairs_section(log_values(l), log_pairs(l)),
        ) && log_pairs(l).len() <= u32::MAX by {
            assert(bytes_at(bytes@, 0, encode_log(l))) by {
                assert(bytes@.subrange(0, encode_log(l).len() as int) =~= encode_log(l));
            }
            lemma_bytes_at_split(
                bytes@,
                0,
                u32le(l.version) + encode_values_section(log_values(l)) + encode_pairs_section(
                    log_values(l),
                    log_pairs(l),
                ) + encode_metadata_section(log_pairs(l), l),
                encode_variants_section(log_values(l), log_pairs(l), l.variants),
            );
            lemma_bytes_at_split(
                bytes@,
                0,
                u32le(l.version) + encode_values_section(log_values(l)) + encode_pairs_section(
                    log_values(l),
                    log_pairs(l),
                ),
                encode_metadata_section(log_pairs(l), l),
            );
            lemma_bytes_at_split(
                bytes@,
                0,
                u32le(l.version) + encode_values_section(log_values(l)),
                encode_pairs_section(log_values(l), log_pairs(l)),
            );
            lemma_bytes_at_split(
                bytes@,
                0,
                u32le(l.version),
                encode_values_section(log_values(l)),
            );
            crate::spec_format::lemma_log_values_wf(l);
        }
    }
    let version = match try_read_u32(bytes, &mut pos) {
        Ok(v) => v,
        Err(e) => {
            return Err(e);
        },
    };
    let values = match try_read_values(bytes, &mut pos) {
        Ok(v) => v,
        Err(e) => {
            return Err(e);
        },
    };
    let ghost pos_pairs = pos;
    let kv_pairs = match try_read_key_values(bytes, &mut pos) {
        Ok(v) => v,
        Err(e) => {
            proof {
                assert forall|l: crate::models::BxesEventLogView|
                    crate::spec_format::wf_log(l) && bytes@ == #[trigger] encode_log(
                        l,
                    ) implies false by {
                    assert(pairs_section_match(
                        bytes@,
                        pos_pairs as int,
                        log_values(l),
                        log_pairs(l),
                    ));
                }
            }
            return Err(e);
        },
    };
    let ghost pos_metadata = pos;
    proof {
        assert forall|l: crate::models::BxesEventLogView|
            crate::spec_format::wf_log(l) && bytes@ == #[trigger] encode_log(l) implies (
        pairs_section_match(bytes@, pos_pairs as int, log_values(l), log_pairs(l))
            && tables_loaded(
            values.deep_view(),
            kv_pairs@,
            log_values(l),
            log_pairs(l),
        ) && attrs_block_match(
            bytes@,
            pos_metadata as int,
            values.deep_view(),
            kv_pairs@,
            log_values(l),
            log_pairs(l),
            opt_attrs(l.metadata),
        )) by {
            assert(pairs_section_match(bytes@, pos_pairs as int, log_values(l), log_pairs(l)));
            crate::walk::lemma_log_tables(l);
            assert forall|k: int| 0 <= k < log_pairs(l).len() implies log_values(l).contains(
                (#[trigger] log_pairs(l)[k]).0,
            ) && log_values(l).contains(log_pairs(l)[k].1) by {
                assert(log_pairs(l).contains(log_pairs(l)[k]));
            }
            assert(bytes_at(bytes@, 0, encode_log(l))) by {
                assert(bytes@.subrange(0, encode_log(l).len() as int) =~= encode_log(l));
            }
            lemma_bytes_at_split(
                bytes@,
                0,
                u32le(l.version) + encode_values_section(log_values(l)) + encode_pairs_section(
                    log_values(l),
                    log_pairs(l),
                ) + encode_metadata_section(log_pairs(l), l),
                encode_variants_section(log_values(l), log_pairs(l), l.variants),
            );
            lemma_bytes_at_split(
                bytes@,
                0,
                u32le(l.version) + encode_values_section(log_values(l)) + encode_pairs_section(
                    log_values(l),
                    log_pairs(l),
                ),
                encode_metadata_section(log_pairs(l), l),
            );
            crate::walk::lemma_log_metadata_interned(l);
        }
    }
    let metadata = match try_read_event_log_metadata(bytes, &mut pos, &values, &kv_pairs) {
        Ok(m) => m,
        Err(e) => {
            return Err(e);
        },
    };
    let ghost pos_variants = pos;
    proof {
        assert forall|l: crate::models::BxesEventLogView|
            crate::spec_format::wf_log(l) && bytes@ == #[trigger] encode_log(
                l,
            ) implies variants_section_match(
            bytes@,
            pos_variants as int,
            values.deep_view(),
            kv_pairs@,
            log_values(l),
            log_pairs(l),
            l.variants,
        ) by {
            crate::walk::lemma_log_tables(l);
            assert forall|k: int| 0 <= k < log_pairs(l).len() implies log_values(l).contains(
                (#[trigger] log_pairs(l)[k]).0,
            ) && log_values(l).contains(log_pairs(l)[k].1) by {
                assert(log_pairs(l).contains(log_pairs(l)[k]));
            }
            assert(bytes_at(bytes@, 0, encode_log(l))) by {
                assert(bytes@.subrange(0, encode_log(l).len() as int) =~= encode_log(l));
            }
            lemma_bytes_at_split(
                bytes@,
                0,
                u32le(l.version) + encode_values_section(log_values(l)) + encode_pairs_section(
                    log_values(l),
                    log_pairs(l),
                ) + encode_metadata_section(log_pairs(l), l),
                encode_variants_section(log_values(l), log_pairs(l), l.variants),
            );
            assert forall|i: int, j: int|
                0 <= i < l.variants.len() && 0 <= j < l.variants[i].events.len()
                implies event_refs_loaded(
                log_values(l),
                log_pairs(l),
                #[trigger] l.variants[i].events[j],
            ) by {
                crate::walk::lemma_log_event_interned(l, i, j);
            }
        }
    }
    let variants = match try_read_traces_variants(bytes, &mut pos, &values, &kv_pairs) {
        Ok(v) => v,
        Err(e) => {
            return Err(e);
        },
    };
    let log = BxesEventLog { version, metadata, variants };
    proof {
        assert forall|l: crate::models::BxesEventLogView|
            crate::spec_format::wf_log(l) && bytes@ == #[trigger] encode_log(l) implies log@
            == l by {
            assert(log@.version == l.version);
            assert(log@.variants == l.variants);
            assert(log@.metadata == l.metadata) by {
                assert(metadata.deep_view() == opt_of_attrs(opt_attrs(l.metadata)));
                match l.metadata {
                    Option::None => {},
                    Option::Some(s) => {
                        assert(s.len() > 0);
                    },
                }
            }
        }
    }
    Ok(log)
}

/// Decode a split-layout log from its four streams. Each stream carries
/// its own version header; the headers must agree.
#[verifier::rlimit(100)]
pub fn decode_bxes_split(
    values_bytes: &[u8],
    kv_bytes: &[u8],
    metadata_bytes: &[u8],
    variants_bytes: &[u8],
) -> (r: Result<BxesEventLog, BxesReadError>)
    ensures
        forall|l: crate::models::BxesEventLogView|
            crate::spec_format::wf_log(l) && values_bytes@ == u32le(l.version)
                + encode_values_section(#[trigger] log_values(l)) && kv_bytes@ == u32le(l.version)
                + encode_pairs_section(log_values(l), log_pairs(l)) && metadata_bytes@ == u32le(
                l.version,
            ) + encode_metadata_section(log_pairs(l), l) && variants_bytes@ == u32le(l.version)
                + encode_variants_section(log_values(l), log_pairs(l), l.variants) ==> (r matches
                Ok(log) && log@ == l),
        values_bytes@.len() >= 4 ==> ({
            let v0 = spec_u32_from_le_bytes(values_bytes@.subrange(0, 4));
            let kv_ok = kv_bytes@.len() >= 4 && spec_u32_from_le_bytes(
                kv_bytes@.subrange(0, 4),
            ) == v0;
            let md_ok = metadata_bytes@.len() >= 4 && spec_u32_from_le_bytes(
                metadata_bytes@.subrange(0, 4),
            ) == v0;
            &&& (kv_bytes@.len() >= 4 && !kv_ok ==> (r matches Err(e) && (
            e matches BxesReadError::VersionsMismatchError(m) && m.previous_version == v0
                && m.current_version == spec_u32_from_le_bytes(kv_bytes@.subrange(0, 4)))))
            &&& (kv_ok && metadata_bytes@.len() >= 4 && !md_ok ==> (r matches Err(e) && (
            e matches BxesReadError::VersionsMismatchError(m) && m.previous_version == v0
                && m.current_version == spec_u32_from_le_bytes(metadata_bytes@.subrange(0, 4)))))
            &&& (kv_ok && md_ok && variants_bytes@.len() >= 4 && spec_u32_from_le_bytes(
                variants_bytes@.subrange(0, 4),
            ) != v0 ==> (r matches Err(e) && (e matches BxesReadError::VersionsMismatchError(m)
                && m.previous_version == v0 && m.current_version == spec_u32_from_le_bytes(
                variants_bytes@.subrange(0, 4),
            ))))
        }),
{
    proof {
        lemma_auto_spec_u32_to_from_le_bytes();
        assert forall|l: crate::models::BxesEventLogView|
            crate::spec_format::wf_log(l) && values_bytes@ == u32le(l.version)
                + encode_values_section(#[trigger] log_values(l)) && kv_bytes@ == u32le(l.version)
                + encode_pairs_section(log_values(l), log_pairs(l)) && metadata_bytes@ == u32le(
                l.version,
            ) + encode_metadata_section(log_pairs(l), l) && variants_bytes@ == u32le(l.version)
                + encode_variants_section(log_values(l), log_pairs(l), l.variants) implies (
        bytes_at(values_bytes@, 0, u32le(l.version)) && values_section_match(
            values_bytes@,
            4,
            log_values(l),
        ) && bytes_at(kv_bytes@, 0, u32le(l.version)) && pairs_section_match(
            kv_bytes@,
            4,
            log_values(l),
            log_pairs(l),
        ) && bytes_at(metadata_bytes@, 0, u32le(l.version)) && bytes_at(
            variants_bytes@,
            0,
            u32le(l.version),
        )) by {
            assert(bytes_at(values_bytes@, 0, values_bytes@)) by {
                assert(values_bytes@.subrange(0, values_bytes@.len() as int) =~= values_bytes@);
            }
            lemma_bytes_at_split(
                values_bytes@,
                0,
                u32le(l.version),
                encode_values_section(log_values(l)),
            );
            crate::spec_format::lemma_log_values_wf(l);
            assert(bytes_at(kv_bytes@, 0, kv_bytes@)) by {
                assert(kv_bytes@.subrange(0, kv_bytes@.len() as int) =~= kv_bytes@);
            }
            lemma_bytes_at_split(
                kv_bytes@,
                0,
                u32le(l.version),
                encode_pairs_section(log_values(l), log_pairs(l)),
            );
            assert(bytes_at(metadata_bytes@, 0, metadata_bytes@)) by {
                assert(metadata_bytes@.subrange(0, metadata_bytes@.len() as int)
                    =~= metadata_bytes@);
            }
            lemma_bytes_at_split(
                metadata_bytes@,
                0,
                u32le(l.version),
                encode_metadata_section(log_pairs(l), l),
            );
            assert(bytes_at(variants_bytes@, 0, variants_bytes@)) by {
                assert(variants_bytes@.subrange(0, variants_bytes@.len() as int)
                    =~= variants_bytes@);
            }
            lemma_bytes_at_split(
                variants_bytes@,
                0,
                u32le(l.version),
                encode_variants_section(log_values(l), log_pairs(l), l.variants),
            );
        }
    }
    let mut values_pos: usize = 0;
    let version = match try_read_u32(values_bytes, &mut values_pos) {
        Ok(v) => v,
        Err(e) => {
            return Err(e);
        },
    };
    let mut kv_pos: usize = 0;
    let kv_version = match try_read_u32(kv_bytes, &mut kv_pos) {
        Ok(v) => v,
        Err(e) => {
            return Err(e);
        },
    };
    if kv_version != version {
        return Err(BxesReadError::VersionsMismatchError(
            crate::errors::VersionsMismatchError::new(version, kv_version),
        ));
    }
    let mut metadata_pos: usize = 0;
    let metadata_version = match try_read_u32(metadata_bytes, &mut metadata_pos) {
        Ok(v) => v,
        Err(e) => {
            return Err(e);
        },
    };
    if metadata_version != version {
        return Err(BxesReadError::VersionsMismatchError(
            crate::errors::VersionsMismatchError::new(version, metadata_version),
        ));
    }
    let mut variants_pos: usize = 0;
    let variants_version = match try_read_u32(variants_bytes, &mut variants_pos) {
        Ok(v) => v,
        Err(e) => {
            return Err(e);
        },
    };
    if variants_version != version {
        return Err(BxesReadError::VersionsMismatchError(
            crate::errors::VersionsMismatchError::new(version, variants_version),
        ));
    }
    let values = match try_read_values(values_bytes, &mut values_pos) {
        Ok(v) => v,
        Err(e) => {
            return Err(e);
        },
    };
    let kv_pairs = match try_read_key_values(kv_bytes, &mut kv_pos) {
        Ok(v) => v,
        Err(e) => {
            return Err(e);
        },
    };
    proof {
        assert forall|l: crate::models::BxesEventLogView|
            crate::spec_format::wf_log(l) && values_bytes@ == u32le(l.version)
                + encode_values_section(#[trigger] log_values(l)) && kv_bytes@ == u32le(l.version)
                + encode_pairs_section(log_values(l), log_pairs(l)) && metadata_bytes@ == u32le(
                l.version,
            ) + encode_metadata_section(log_pairs(l), l) && variants_bytes@ == u32le(l.version)
                + encode_variants_section(log_values(l), log_pairs(l), l.variants) implies (
        tables_loaded(values.deep_view(), kv_pairs@, log_values(l), log_pairs(l))
            && attrs_block_match(
            metadata_bytes@,
            4,
            values.deep_view(),
            kv_pairs@,
            log_values(l),
            log_pairs(l),
            opt_attrs(l.metadata),
        ) && variants_section_match(
            variants_bytes@,
            4,
            values.deep_view(),
            kv_pairs@,
            log_values(l),
            log_pairs(l),
            l.variants,
        )) by {
            crate::walk::lemma_log_tables(l);
            assert forall|k: int| 0 <= k < log_pairs(l).len() implies log_values(l).contains(
                (#[trigger] log_pairs(l)[k]).0,
            ) && log_values(l).contains(log_pairs(l)[k].1) by {
                assert(log_pairs(l).contains(log_pairs(l)[k]));
            }
            assert(bytes_at(metadata_bytes@, 0, metadata_bytes@)) by {
                assert(metadata_bytes@.subrange(0, metadata_bytes@.len() as int)
                    =~= metadata_bytes@);
            }
            lemma_bytes_at_split(
                metadata_bytes@,
                0,
                u32le(l.version),
                encode_metadata_section(log_pairs(l), l),
            );
            crate::walk::lemma_log_metadata_interned(l);
            assert(bytes_at(variants_bytes@, 0, variants_bytes@)) by {
                assert(variants_bytes@.subrange(0, variants_bytes@.len() as int)
                    =~= variants_bytes@);
            }
            lemma_bytes_at_split(
                variants_bytes@,
                0,
                u32le(l.version),
                encode_variants_section(log_values(l), log_pairs(l), l.variants),
            );
            assert forall|i: int, j: int|
                0 <= i < l.variants.len() && 0 <= j < l.variants[i].events.len()
                implies event_refs_loaded(
                log_values(l),
                log_pairs(l),
                #[trigger] l.variants[i].events[j],
            ) by {
                crate::walk::lemma_log_event_interned(l, i, j);
            }
        }
    }
    let metadata = match try_read_event_log_metadata(
        metadata_bytes,
        &mut metadata_pos,
        &values,
        &kv_pairs,
    ) {
        Ok(m) => m,
        Err(e) => {
            return Err(e);
        },
    };
    let variants = match try_read_traces_variants(
        variants_bytes,
        &mut variants_pos,
        &values,
        &kv_pairs,
    ) {
        Ok(v) => v,
        Err(e) => {
            return Err(e);
        },
    };
    let log = BxesEventLog { version, metadata, variants };
    proof {
        assert forall|l: crate::models::BxesEventLogView|
            crate::spec_format::wf_log(l) && values_bytes@ == u32le(l.version)
                + encode_values_section(#[trigger] log_values(l)) && kv_bytes@ == u32le(l.version)
                + encode_pairs_section(log_values(l), log_pairs(l)) && metadata_bytes@ == u32le(
                l.version,
            ) + encode_metadata_section(log_pairs(l), l) && variants_bytes@ == u32le(l.version)
                + encode_variants_section(log_values(l), log_pairs(l), l.variants) implies log@
            == l by {
            assert(log@.version == l.version);
            assert(log@.variants == l.variants);
            assert(log@.metadata == l.metadata) by {
                assert(metadata.deep_view() == opt_of_attrs(opt_attrs(l.metadata)));
                match l.metadata {
                    Option::None => {},
                    Option::Some(s) => {
                        assert(s.len() > 0);
                    },
                }
            }
        }
    }
    Ok(log)
}

} // verus!
