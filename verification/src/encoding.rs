//! Verified UTF-8 validation against the byte-level encoding specification,
//! including the classification a loader needs: where the longest valid
//! prefix ends, and whether what follows is only an incomplete trailing
//! scalar encoding (the one case a budget cut may salvage). A verified
//! whitespace-only test over decoded scalars lives here too.

use vstd::prelude::*;
use vstd::utf8::codepoint_width_1;
use vstd::utf8::codepoint_width_2;
use vstd::utf8::codepoint_width_3;
use vstd::utf8::codepoint_width_4;
use vstd::utf8::decode_first_scalar;
use vstd::utf8::is_continuation_byte;
use vstd::utf8::is_leading_byte_width_1;
use vstd::utf8::is_leading_byte_width_2;
use vstd::utf8::is_leading_byte_width_3;
use vstd::utf8::is_leading_byte_width_4;
use vstd::utf8::length_of_first_scalar;
use vstd::utf8::not_overlong_encoding;
use vstd::utf8::not_surrogate;
use vstd::utf8::partial_valid_partial_invalid_utf8;
use vstd::utf8::partial_valid_utf8;
use vstd::utf8::partial_valid_utf8_extend;
use vstd::utf8::pop_first_scalar;
use vstd::utf8::valid_first_scalar;
use vstd::utf8::valid_leading_and_continuation_bytes_first_codepoint;
use vstd::utf8::valid_utf8;

verus! {

/// How many bytes a scalar encoding starting with this lead byte takes;
/// zero for a byte that can never begin a valid scalar encoding (stray
/// continuation bytes, the overlong leads 0xC0 and 0xC1, and leads above
/// 0xF4, which always encode values beyond the scalar range).
pub open spec fn lead_width(b0: u8) -> int {
    if b0 <= 0x7f {
        1
    } else if 0xc2 <= b0 && b0 <= 0xdf {
        2
    } else if 0xe0 <= b0 && b0 <= 0xef {
        3
    } else if 0xf0 <= b0 && b0 <= 0xf4 {
        4
    } else {
        0
    }
}

/// The second bytes admitted after a multi-byte lead. Beyond being
/// continuation bytes, second bytes are narrowed so that overlong encodings
/// and surrogate or out-of-range values are impossible to complete.
pub open spec fn second_byte_ok(b0: u8, b1: u8) -> bool {
    ||| (0xc2 <= b0 && b0 <= 0xdf && 0x80 <= b1 && b1 <= 0xbf)
    ||| (b0 == 0xe0 && 0xa0 <= b1 && b1 <= 0xbf)
    ||| (0xe1 <= b0 && b0 <= 0xec && 0x80 <= b1 && b1 <= 0xbf)
    ||| (b0 == 0xed && 0x80 <= b1 && b1 <= 0x9f)
    ||| (0xee <= b0 && b0 <= 0xef && 0x80 <= b1 && b1 <= 0xbf)
    ||| (b0 == 0xf0 && 0x90 <= b1 && b1 <= 0xbf)
    ||| (0xf1 <= b0 && b0 <= 0xf3 && 0x80 <= b1 && b1 <= 0xbf)
    ||| (b0 == 0xf4 && 0x80 <= b1 && b1 <= 0x8f)
}

/// The byte-pattern characterization of a well-formed leading scalar
/// encoding: a lead of width `w`, at least `w` bytes, an admissible second
/// byte, and continuation bytes after that.
pub open spec fn scalar_shape(s: Seq<u8>) -> bool {
    let w = lead_width(s[0]);
    &&& s.len() >= 1
    &&& w >= 1
    &&& s.len() >= w
    &&& (w >= 2 ==> second_byte_ok(s[0], s[1]))
    &&& (w >= 3 ==> is_continuation_byte(s[2]))
    &&& (w == 4 ==> is_continuation_byte(s[3]))
}

/// A well-formed leading scalar encoding is exactly one of byte-pattern
/// shape, and its length is read off the lead byte.
pub proof fn lemma_scalar_shape_iff(s: Seq<u8>)
    requires
        s.len() >= 1,
    ensures
        valid_first_scalar(s) <==> scalar_shape(s),
        valid_first_scalar(s) ==> length_of_first_scalar(s) == lead_width(s[0]),
{
    let b0 = s[0];
    if b0 <= 0x7f {
        assert(is_leading_byte_width_1(b0));
        assert(scalar_shape(s));
        assert(valid_leading_and_continuation_bytes_first_codepoint(s));
        let cp = codepoint_width_1(b0);
        assert((b0 & 0x7f) <= 0x7f) by (bit_vector);
        assert(not_overlong_encoding(cp, 1));
        assert(not_surrogate(cp));
        assert(valid_first_scalar(s));
    } else if 0xc0 <= b0 && b0 <= 0xdf {
        assert(!is_leading_byte_width_1(b0) && is_leading_byte_width_2(b0)
            && !is_leading_byte_width_3(b0) && !is_leading_byte_width_4(b0));
        if s.len() >= 2 && is_continuation_byte(s[1]) {
            let b1 = s[1];
            assert(valid_leading_and_continuation_bytes_first_codepoint(s));
            let cp = codepoint_width_2(b0, b1);
            assert(cp == ((((b0 & 0x1f) as u32) << 6u32) | ((b1 & 0x3f) as u32)));
            if 0xc2 <= b0 {
                assert((((((b0 & 0x1f) as u32) << 6u32) | ((b1 & 0x3f) as u32)) >= 0x80) && (((((
                b0 & 0x1f) as u32) << 6u32) | ((b1 & 0x3f) as u32)) <= 0x7ff)) by (bit_vector)
                    requires
                        0xc2 <= b0,
                        b0 <= 0xdf,
                        0x80 <= b1,
                        b1 <= 0xbf,
                ;
                assert(valid_first_scalar(s));
                assert(scalar_shape(s));
            } else {
                // 0xC0 or 0xC1: every completion is an overlong encoding
                assert((((((b0 & 0x1f) as u32) << 6u32) | ((b1 & 0x3f) as u32)) < 0x80))
                    by (bit_vector)
                    requires
                        0xc0 <= b0,
                        b0 <= 0xc1,
                        0x80 <= b1,
                        b1 <= 0xbf,
                ;
                assert(!not_overlong_encoding(cp, 2));
                assert(!valid_first_scalar(s));
                assert(!scalar_shape(s));
            }
        } else {
            assert(!valid_leading_and_continuation_bytes_first_codepoint(s));
            assert(!valid_first_scalar(s));
            assert(!scalar_shape(s));
        }
    } else if 0xe0 <= b0 && b0 <= 0xef {
        assert(!is_leading_byte_width_1(b0) && !is_leading_byte_width_2(b0)
            && is_leading_byte_width_3(b0) && !is_leading_byte_width_4(b0));
        if s.len() >= 3 && is_continuation_byte(s[1]) && is_continuation_byte(s[2]) {
            let b1 = s[1];
            let b2 = s[2];
            assert(valid_leading_and_continuation_bytes_first_codepoint(s));
            let cp = codepoint_width_3(b0, b1, b2);
            assert(cp == ((((b0 & 0x0f) as u32) << 12u32) | (((b1 & 0x3f) as u32) << 6u32) | ((b2
                & 0x3f) as u32)));
            if second_byte_ok(b0, b1) {
                assert((((((b0 & 0x0f) as u32) << 12u32) | (((b1 & 0x3f) as u32) << 6u32) | ((b2
                    & 0x3f) as u32)) >= 0x800) && !(0xd800 <= ((((b0 & 0x0f) as u32) << 12u32) | (((
                b1 & 0x3f) as u32) << 6u32) | ((b2 & 0x3f) as u32)) && ((((b0 & 0x0f) as u32)
                    << 12u32) | (((b1 & 0x3f) as u32) << 6u32) | ((b2 & 0x3f) as u32)) <= 0xdfff))
                    by (bit_vector)
                    requires
                        0xe0 <= b0,
                        b0 <= 0xef,
                        0x80 <= b1,
                        b1 <= 0xbf,
                        0x80 <= b2,
                        b2 <= 0xbf,
                        (b0 == 0xe0 ==> 0xa0 <= b1),
                        (b0 == 0xed ==> b1 <= 0x9f),
                ;
                assert(not_overlong_encoding(cp, 3));
                assert(not_surrogate(cp));
                assert(valid_first_scalar(s));
                assert(scalar_shape(s));
            } else {
                // the lead 0xE0 with a low second byte is overlong; 0xED with
                // a high second byte lands in the surrogate range
                assert((b0 == 0xe0 && b1 <= 0x9f) || (b0 == 0xed && 0xa0 <= b1));
                assert(((b0 == 0xe0 && b1 <= 0x9f) ==> ((((b0 & 0x0f) as u32) << 12u32) | (((b1
                    & 0x3f) as u32) << 6u32) | ((b2 & 0x3f) as u32)) < 0x800) && ((b0 == 0xed
                    && 0xa0 <= b1) ==> (0xd800 <= ((((b0 & 0x0f) as u32) << 12u32) | (((b1
                    & 0x3f) as u32) << 6u32) | ((b2 & 0x3f) as u32)) && ((((b0 & 0x0f) as u32)
                    << 12u32) | (((b1 & 0x3f) as u32) << 6u32) | ((b2 & 0x3f) as u32)) <= 0xdfff)))
                    by (bit_vector)
                    requires
                        0x80 <= b1,
                        b1 <= 0xbf,
                        0x80 <= b2,
                        b2 <= 0xbf,
                ;
                assert(!(not_overlong_encoding(cp, 3) && not_surrogate(cp)));
                assert(!valid_first_scalar(s));
                assert(!scalar_shape(s));
            }
        } else {
            assert(!valid_leading_and_continuation_bytes_first_codepoint(s));
            assert(!valid_first_scalar(s));
            assert(!scalar_shape(s));
        }
    } else if 0xf0 <= b0 && b0 <= 0xf7 {
        assert(!is_leading_byte_width_1(b0) && !is_leading_byte_width_2(b0)
            && !is_leading_byte_width_3(b0) && is_leading_byte_width_4(b0));
        if s.len() >= 4 && is_continuation_byte(s[1]) && is_continuation_byte(s[2])
            && is_continuation_byte(s[3]) {
            let b1 = s[1];
            let b2 = s[2];
            let b3 = s[3];
            assert(valid_leading_and_continuation_bytes_first_codepoint(s));
            let cp = codepoint_width_4(b0, b1, b2, b3);
            assert(cp == ((((b0 & 0x07) as u32) << 18u32) | (((b1 & 0x3f) as u32) << 12u32) | (((b2
                & 0x3f) as u32) << 6u32) | ((b3 & 0x3f) as u32)));
            if b0 <= 0xf4 && second_byte_ok(b0, b1) {
                assert((0x10000 <= ((((b0 & 0x07) as u32) << 18u32) | (((b1 & 0x3f) as u32)
                    << 12u32) | (((b2 & 0x3f) as u32) << 6u32) | ((b3 & 0x3f) as u32))) && (((((b0
                    & 0x07) as u32) << 18u32) | (((b1 & 0x3f) as u32) << 12u32) | (((b2
                    & 0x3f) as u32) << 6u32) | ((b3 & 0x3f) as u32)) <= 0x10ffff)) by (bit_vector)
                    requires
                        0xf0 <= b0,
                        b0 <= 0xf4,
                        0x80 <= b1,
                        b1 <= 0xbf,
                        0x80 <= b2,
                        b2 <= 0xbf,
                        0x80 <= b3,
                        b3 <= 0xbf,
                        (b0 == 0xf0 ==> 0x90 <= b1),
                        (b0 == 0xf4 ==> b1 <= 0x8f),
                ;
                assert(not_overlong_encoding(cp, 4));
                assert(not_surrogate(cp));
                assert(valid_first_scalar(s));
                assert(scalar_shape(s));
            } else {
                // 0xF0 with a low second byte is overlong; 0xF4 with a high
                // one, and any lead above 0xF4, exceeds the scalar range
                assert((b0 == 0xf0 && b1 <= 0x8f) || (b0 == 0xf4 && 0x90 <= b1) || b0 >= 0xf5);
                assert((((b0 == 0xf0 && b1 <= 0x8f) ==> ((((b0 & 0x07) as u32) << 18u32) | (((b1
                    & 0x3f) as u32) << 12u32) | (((b2 & 0x3f) as u32) << 6u32) | ((b3
                    & 0x3f) as u32)) < 0x10000)) && (((b0 == 0xf4 && 0x90 <= b1) || (0xf5 <= b0
                    && b0 <= 0xf7)) ==> ((((b0 & 0x07) as u32) << 18u32) | (((b1 & 0x3f) as u32)
                    << 12u32) | (((b2 & 0x3f) as u32) << 6u32) | ((b3 & 0x3f) as u32)) > 0x10ffff))
                    by (bit_vector)
                    requires
                        0xf0 <= b0,
                        b0 <= 0xf7,
                        0x80 <= b1,
                        b1 <= 0xbf,
                        0x80 <= b2,
                        b2 <= 0xbf,
                        0x80 <= b3,
                        b3 <= 0xbf,
                ;
                assert(!not_overlong_encoding(cp, 4));
                assert(!valid_first_scalar(s));
                assert(!scalar_shape(s));
            }
        } else {
            assert(!valid_leading_and_continuation_bytes_first_codepoint(s));
            assert(!valid_first_scalar(s));
            assert(!scalar_shape(s));
        }
    } else {
        // a stray continuation byte (0x80..=0xBF) or 0xF8..=0xFF: no lead
        // pattern matches
        assert(!is_leading_byte_width_1(b0) && !is_leading_byte_width_2(b0)
            && !is_leading_byte_width_3(b0) && !is_leading_byte_width_4(b0));
        assert(!valid_leading_and_continuation_bytes_first_codepoint(s));
        assert(!valid_first_scalar(s));
        assert(!scalar_shape(s));
    }
}

/// Length of the longest prefix that parses as whole UTF-8 scalar
/// encodings, reading greedily from the start.
pub open spec fn utf8_prefix_len(s: Seq<u8>) -> int
    decreases s.len(),
{
    if s.len() == 0 {
        0
    } else if !valid_first_scalar(s) {
        0
    } else {
        length_of_first_scalar(s) + utf8_prefix_len(pop_first_scalar(s))
    }
}

/// The longest parsed prefix is no longer than the sequence.
pub proof fn lemma_prefix_len_bounds(s: Seq<u8>)
    ensures
        0 <= utf8_prefix_len(s) <= s.len(),
    decreases s.len(),
{
    if s.len() != 0 && valid_first_scalar(s) {
        lemma_prefix_len_bounds(pop_first_scalar(s));
    }
}

/// A sequence is valid UTF-8 exactly when it parses to its full length.
pub proof fn lemma_valid_iff_prefix_full(s: Seq<u8>)
    ensures
        valid_utf8(s) <==> utf8_prefix_len(s) == s.len(),
    decreases s.len(),
{
    if s.len() != 0 && valid_first_scalar(s) {
        lemma_valid_iff_prefix_full(pop_first_scalar(s));
        lemma_prefix_len_bounds(pop_first_scalar(s));
    }
}

/// True when the whole sequence is a proper prefix of a single well-formed
/// scalar encoding that ran out of input: the one kind of invalidity a
/// byte-budget cut can produce in otherwise valid text.
pub open spec fn incomplete_tail(s: Seq<u8>) -> bool {
    ||| (s.len() == 1 && lead_width(s[0]) >= 2)
    ||| (s.len() == 2 && lead_width(s[0]) >= 3 && second_byte_ok(s[0], s[1]))
    ||| (s.len() == 3 && lead_width(s[0]) == 4 && second_byte_ok(s[0], s[1])
        && is_continuation_byte(s[2]))
}

/// What validation found.
#[derive(Debug, Clone, Copy, PartialEq, Eq, Structural)]
pub enum Utf8Check {
    /// The whole input is valid UTF-8.
    Valid,
    /// The input is not valid UTF-8. `valid_up_to` is the byte length of the
    /// longest valid prefix; `incomplete` says whether everything after that
    /// prefix is just an incomplete trailing scalar encoding.
    Invalid { valid_up_to: usize, incomplete: bool },
}

/// Decides whether `b1` may follow the lead byte `b0`.
fn second_byte_ok_exec(b0: u8, b1: u8) -> (r: bool)
    ensures
        r == second_byte_ok(b0, b1),
{
    (0xc2 <= b0 && b0 <= 0xdf && 0x80 <= b1 && b1 <= 0xbf) || (b0 == 0xe0 && 0xa0 <= b1 && b1
        <= 0xbf) || (0xe1 <= b0 && b0 <= 0xec && 0x80 <= b1 && b1 <= 0xbf) || (b0 == 0xed && 0x80
        <= b1 && b1 <= 0x9f) || (0xee <= b0 && b0 <= 0xef && 0x80 <= b1 && b1 <= 0xbf) || (b0
        == 0xf0 && 0x90 <= b1 && b1 <= 0xbf) || (0xf1 <= b0 && b0 <= 0xf3 && 0x80 <= b1 && b1
        <= 0xbf) || (b0 == 0xf4 && 0x80 <= b1 && b1 <= 0x8f)
}

/// Validates a byte vector as UTF-8.
///
/// On invalid input this reports the length of the longest valid prefix and
/// whether the remainder is solely an incomplete trailing scalar encoding.
pub fn check_utf8(v: &Vec<u8>) -> (r: Utf8Check)
    ensures
        match r {
            Utf8Check::Valid => valid_utf8(v@),
            Utf8Check::Invalid { valid_up_to, incomplete } => {
                &&& !valid_utf8(v@)
                &&& valid_up_to <= v@.len()
                &&& valid_up_to == utf8_prefix_len(v@)
                &&& valid_utf8(v@.take(valid_up_to as int))
                &&& incomplete == incomplete_tail(v@.skip(valid_up_to as int))
            },
        },
{
    let n = v.len();
    let mut i: usize = 0;
    proof {
        assert(v@.take(0) =~= Seq::<u8>::empty());
        assert(v@.skip(0) =~= v@);
    }
    while i < n
        invariant
            i <= n,
            n == v@.len(),
            partial_valid_utf8(v@, i as int),
            utf8_prefix_len(v@) == i + utf8_prefix_len(v@.skip(i as int)),
        decreases n - i,
    {
        let ghost s = v@.skip(i as int);
        proof {
            assert(s.len() == n - i);
            assert(forall|k: int| 0 <= k < s.len() ==> s[k] == v@[i + k]);
            lemma_scalar_shape_iff(s);
        }
        let b0 = v[i];
        assert(b0 == s[0]);
        let w: usize = if b0 <= 0x7f {
            1
        } else if 0xc2 <= b0 && b0 <= 0xdf {
            2
        } else if 0xe0 <= b0 && b0 <= 0xef {
            3
        } else if 0xf0 <= b0 && b0 <= 0xf4 {
            4
        } else {
            0
        };
        assert(w as int == lead_width(s[0]));
        let mut ok = false;
        let mut incomplete = false;
        if w == 0 {
            // a byte that can never begin a scalar encoding
        } else if w == 1 {
            ok = true;
        } else if i + 1 >= n {
            incomplete = true;
            assert(s.len() == 1);
        } else {
            let b1 = v[i + 1];
            assert(b1 == s[1]);
            if !second_byte_ok_exec(b0, b1) {
                // a second byte that no valid encoding admits here
            } else if w == 2 {
                ok = true;
            } else if i + 2 >= n {
                incomplete = true;
                assert(s.len() == 2);
            } else {
                let b2 = v[i + 2];
                assert(b2 == s[2]);
                if !(0x80 <= b2 && b2 <= 0xbf) {
                    // a missing continuation byte
                } else if w == 3 {
                    ok = true;
                } else if i + 3 >= n {
                    incomplete = true;
                    assert(s.len() == 3);
                } else {
                    let b3 = v[i + 3];
                    assert(b3 == s[3]);
                    if 0x80 <= b3 && b3 <= 0xbf {
                        ok = true;
                    }
                }
            }
        }
        if ok {
            proof {
                assert(scalar_shape(s));
                assert(valid_first_scalar(s));
                assert(length_of_first_scalar(s) == w);
                partial_valid_utf8_extend(v@, i as int);
                assert(pop_first_scalar(s) =~= v@.skip(i + w));
                assert(utf8_prefix_len(s) == w + utf8_prefix_len(v@.skip(i + w)));
            }
            i += w;
        } else {
            proof {
                assert(!scalar_shape(s));
                assert(!valid_first_scalar(s));
                assert(utf8_prefix_len(s) == 0);
                assert(utf8_prefix_len(v@) == i);
                assert(!valid_utf8(s));
                partial_valid_partial_invalid_utf8(v@, i as int);
                assert(v@.take(i as int) =~= v@.subrange(0, i as int));
                assert(incomplete_tail(s) == incomplete);
            }
            return Utf8Check::Invalid { valid_up_to: i, incomplete };
        }
    }
    proof {
        assert(v@.take(n as int) =~= v@);
        assert(v@.subrange(0, n as int) =~= v@);
    }
    Utf8Check::Valid
}

/// The scalar values with the Unicode white-space property, the set the
/// standard whitespace trim removes.
pub open spec fn is_ws_scalar(cp: u32) -> bool {
    ||| (0x09 <= cp && cp <= 0x0d)
    ||| cp == 0x20
    ||| cp == 0x85
    ||| cp == 0xa0
    ||| cp == 0x1680
    ||| (0x2000 <= cp && cp <= 0x200a)
    ||| cp == 0x2028
    ||| cp == 0x2029
    ||| cp == 0x202f
    ||| cp == 0x205f
    ||| cp == 0x3000
}

/// True when every scalar encoded in the (valid UTF-8) sequence is
/// whitespace; true of the empty sequence.
pub open spec fn ws_only(s: Seq<u8>) -> bool
    decreases s.len(),
{
    if s.len() == 0 {
        true
    } else if !valid_first_scalar(s) {
        false
    } else {
        is_ws_scalar(decode_first_scalar(s)) && ws_only(pop_first_scalar(s))
    }
}

/// Decides [`is_ws_scalar`].
fn is_ws_scalar_exec(cp: u32) -> (r: bool)
    ensures
        r == is_ws_scalar(cp),
{
    (0x09 <= cp && cp <= 0x0d) || cp == 0x20 || cp == 0x85 || cp == 0xa0 || cp == 0x1680 || (0x2000
        <= cp && cp <= 0x200a) || cp == 0x2028 || cp == 0x2029 || cp == 0x202f || cp == 0x205f
        || cp == 0x3000
}

/// Decides whether valid UTF-8 text consists only of whitespace (or is
/// empty): exactly when trimming it would leave nothing.
pub fn whitespace_only(v: &Vec<u8>) -> (r: bool)
    requires
        valid_utf8(v@),
    ensures
        r == ws_only(v@),
{
    let n = v.len();
    let mut i: usize = 0;
    proof {
        assert(v@.skip(0) =~= v@);
    }
    while i < n
        invariant
            i <= n,
            n == v@.len(),
            valid_utf8(v@.skip(i as int)),
            ws_only(v@) == ws_only(v@.skip(i as int)),
        decreases n - i,
    {
        let ghost s = v@.skip(i as int);
        proof {
            assert(s.len() == n - i);
            assert(forall|k: int| 0 <= k < s.len() ==> s[k] == v@[i + k]);
            assert(valid_first_scalar(s));
            lemma_scalar_shape_iff(s);
        }
        let b0 = v[i];
        assert(b0 == s[0]);
        let w: usize = if b0 <= 0x7f {
            1
        } else if 0xc2 <= b0 && b0 <= 0xdf {
            2
        } else if 0xe0 <= b0 && b0 <= 0xef {
            3
        } else {
            4
        };
        assert(w as int == lead_width(s[0]) && length_of_first_scalar(s) == w);
        assert(i + w <= n);
        let cp: u32;
        if w == 1 {
            cp = (b0 & 0x7f) as u32;
            assert(cp == codepoint_width_1(s[0]));
        } else if w == 2 {
            let b1 = v[i + 1];
            assert(b1 == s[1]);
            cp = (((b0 & 0x1f) as u32) << 6u32) | ((b1 & 0x3f) as u32);
            assert(cp == codepoint_width_2(s[0], s[1]));
        } else if w == 3 {
            let b1 = v[i + 1];
            let b2 = v[i + 2];
            assert(b1 == s[1] && b2 == s[2]);
            cp = (((b0 & 0x0f) as u32) << 12u32) | (((b1 & 0x3f) as u32) << 6u32) | ((b2
                & 0x3f) as u32);
            assert(cp == codepoint_width_3(s[0], s[1], s[2]));
        } else {
            let b1 = v[i + 1];
            let b2 = v[i + 2];
            let b3 = v[i + 3];
            assert(b1 == s[1] && b2 == s[2] && b3 == s[3]);
            cp = (((b0 & 0x07) as u32) << 18u32) | (((b1 & 0x3f) as u32) << 12u32) | (((b2
                & 0x3f) as u32) << 6u32) | ((b3 & 0x3f) as u32);
            assert(cp == codepoint_width_4(s[0], s[1], s[2], s[3]));
        }
        assert(cp == decode_first_scalar(s));
        if !is_ws_scalar_exec(cp) {
            assert(!ws_only(s));
            return false;
        }
        proof {
            assert(pop_first_scalar(s) =~= v@.skip(i + w));
            assert(valid_utf8(pop_first_scalar(s)));
            assert(ws_only(s) == ws_only(v@.skip(i + w)));
        }
        i += w;
    }
    proof {
        assert(v@.skip(i as int).len() == 0);
    }
    true
}

/// Cutting valid UTF-8 anywhere leaves either valid UTF-8 or a valid prefix
/// followed only by an incomplete trailing scalar encoding. This is why a
/// budget cut in valid text can always be salvaged.
pub proof fn lemma_truncate_valid(b: Seq<u8>, k: int)
    requires
        valid_utf8(b),
        0 <= k <= b.len(),
    ensures
        valid_utf8(b.take(k)) || incomplete_tail(b.take(k).skip(utf8_prefix_len(b.take(k)))),
    decreases b.len(),
{
    if k == 0 {
        assert(b.take(0) =~= Seq::<u8>::empty());
    } else {
        assert(b.len() > 0);
        assert(valid_first_scalar(b));
        lemma_scalar_shape_iff(b);
        let w = length_of_first_scalar(b);
        let d = b.take(k);
        assert(forall|j: int| 0 <= j < k ==> d[j] == b[j]);
        if k >= w {
            assert(scalar_shape(d));
            lemma_scalar_shape_iff(d);
            assert(valid_first_scalar(d) && length_of_first_scalar(d) == w);
            assert(pop_first_scalar(d) =~= pop_first_scalar(b).take(k - w));
            lemma_truncate_valid(pop_first_scalar(b), k - w);
            if valid_utf8(pop_first_scalar(d)) {
                assert(valid_utf8(d));
            } else {
                let p = utf8_prefix_len(pop_first_scalar(d));
                lemma_valid_iff_prefix_full(pop_first_scalar(d));
                assert(utf8_prefix_len(d) == w + p);
                lemma_prefix_len_bounds(pop_first_scalar(d));
                assert(d.skip(w + p) =~= pop_first_scalar(d).skip(p));
            }
        } else {
            // the cut falls inside the first scalar encoding
            assert(lead_width(d[0]) == lead_width(b[0]) == w);
            assert(d.len() == k < w);
            assert(!scalar_shape(d));
            lemma_scalar_shape_iff(d);
            assert(!valid_first_scalar(d));
            assert(utf8_prefix_len(d) == 0);
            assert(d.skip(0) =~= d);
            assert(k == 1 || k == 2 || k == 3);
            assert(incomplete_tail(d));
        }
    }
}

/// Any scalar-boundary prefix of whitespace-only text is itself
/// whitespace-only: cutting whitespace-only valid UTF-8 and salvaging the
/// valid prefix leaves whitespace-only text.
pub proof fn lemma_ws_prefix(b: Seq<u8>, k: int)
    requires
        valid_utf8(b),
        ws_only(b),
        0 <= k <= b.len(),
    ensures
        ws_only(b.take(k).take(utf8_prefix_len(b.take(k)))),
        valid_utf8(b.take(k)) ==> ws_only(b.take(k)),
    decreases b.len(),
{
    let d = b.take(k);
    if k == 0 {
        assert(d =~= Seq::<u8>::empty());
        assert(d.take(utf8_prefix_len(d)) =~= Seq::<u8>::empty());
    } else {
        assert(b.len() > 0);
        assert(valid_first_scalar(b));
        lemma_scalar_shape_iff(b);
        let w = length_of_first_scalar(b);
        assert(forall|j: int| 0 <= j < k ==> d[j] == b[j]);
        if k >= w {
            assert(scalar_shape(d));
            lemma_scalar_shape_iff(d);
            assert(valid_first_scalar(d) && length_of_first_scalar(d) == w);
            assert(decode_first_scalar(d) == decode_first_scalar(b));
            assert(is_ws_scalar(decode_first_scalar(d)));
            let rest = pop_first_scalar(b);
            assert(pop_first_scalar(d) =~= rest.take(k - w));
            lemma_ws_prefix(rest, k - w);
            let p = utf8_prefix_len(pop_first_scalar(d));
            assert(utf8_prefix_len(d) == w + p);
            lemma_prefix_len_bounds(pop_first_scalar(d));
            let t = d.take(w + p);
            assert(t.len() == w + p);
            assert(forall|j: int| 0 <= j < w + p ==> t[j] == d[j]);
            assert(scalar_shape(t));
            lemma_scalar_shape_iff(t);
            assert(valid_first_scalar(t) && length_of_first_scalar(t) == w);
            assert(decode_first_scalar(t) == decode_first_scalar(b));
            assert(pop_first_scalar(t) =~= pop_first_scalar(d).take(p));
            assert(ws_only(pop_first_scalar(t)));
            assert(ws_only(t));
            if valid_utf8(d) {
                assert(valid_utf8(pop_first_scalar(d)));
                assert(ws_only(pop_first_scalar(d)));
                assert(ws_only(d));
            }
        } else {
            assert(lead_width(d[0]) == lead_width(b[0]));
            assert(d.len() == k < w);
            assert(!scalar_shape(d));
            lemma_scalar_shape_iff(d);
            assert(!valid_first_scalar(d));
            assert(utf8_prefix_len(d) == 0);
            assert(d.take(0) =~= Seq::<u8>::empty());
        }
    }
}

} // verus!
