//! Interpolation of a path template: literal fragments alternate with encoded
//! values, `literal0 + value0 + literal1 + value1 + .. + literalN`.
//!
//! Literal fragments are written by the developer and keep their `/`; values
//! come from outside and have every byte that is not unreserved escaped, `/`
//! included, so that a value can never open a new path segment.
use vstd::prelude::*;
use vstd::string::*;
use crate::error::Error;
use crate::percent_encode::{
    SOLIDUS_BYTE,
    encoded_no_slash,
    encoded_user_input,
    is_escape_safe,
    is_unreserved,
    lemma_user_input_is_escape_safe,
    percent_encode_no_slash,
    percent_encode_user_input,
};

verus! {

/// A literal fragment, every byte under the policy that keeps `/`.
pub open spec fn encode_static(bytes: Seq<u8>) -> Seq<char>
    decreases bytes.len(),
{
    if bytes.len() == 0 {
        Seq::empty()
    } else {
        encode_static(bytes.drop_last()) + encoded_no_slash(bytes.last())
    }
}

/// An untrusted value, every byte under the policy that escapes `/` too.
pub open spec fn encode_dynamic(bytes: Seq<u8>) -> Seq<char>
    decreases bytes.len(),
{
    if bytes.len() == 0 {
        Seq::empty()
    } else {
        encode_dynamic(bytes.drop_last()) + encoded_user_input(bytes.last())
    }
}

/// How many values are interpolated: one per literal after the first, as long
/// as there is a value for it.
pub open spec fn pair_count(statics: int, dynamics: int) -> int {
    if statics - 1 <= dynamics {
        statics - 1
    } else {
        dynamics
    }
}

/// The first literal followed by the first `k` pairs of a value and the
/// literal after it.
pub open spec fn interpolated_prefix(
    statics: Seq<Seq<u8>>,
    dynamics: Seq<Seq<u8>>,
    k: int,
) -> Seq<char>
    recommends
        0 <= k < statics.len(),
        k <= dynamics.len(),
    decreases k,
{
    if k <= 0 {
        encode_static(statics[0])
    } else {
        interpolated_prefix(statics, dynamics, k - 1) + encode_dynamic(dynamics[k - 1])
            + encode_static(statics[k])
    }
}

/// The interpolated path: the first literal, then each value with the literal
/// after it, until either sequence runs out.
pub open spec fn interpolated(statics: Seq<Seq<u8>>, dynamics: Seq<Seq<u8>>) -> Seq<char>
    recommends
        statics.len() > 0,
{
    interpolated_prefix(statics, dynamics, pair_count(statics.len() as int, dynamics.len() as int))
}

/// The bytes of each fragment of a list.
pub open spec fn fragment_bytes(fragments: Seq<&str>) -> Seq<Seq<u8>> {
    Seq::new(fragments.len(), |i: int| fragments[i].spec_bytes())
}

/// Appends a literal fragment to `out`, keeping its path separators.
pub fn push_static(out: &mut String, fragment: &str)
    ensures
        final(out)@ == old(out)@ + encode_static(fragment.spec_bytes()),
{
    let bytes = fragment.as_bytes();
    let mut i: usize = 0;
    while i < bytes.len()
        invariant
            i <= bytes@.len(),
            out@ == old(out)@ + encode_static(bytes@.take(i as int)),
        decreases bytes@.len() - i,
    {
        out.append(percent_encode_no_slash(bytes[i]));
        proof {
            assert(bytes@.take(i + 1).drop_last() =~= bytes@.take(i as int));
        }
        i += 1;
    }
    proof {
        assert(bytes@.take(i as int) =~= bytes@);
    }
}

/// Appends an untrusted value to `out`, escaping all but unreserved bytes.
pub fn push_dynamic(out: &mut String, fragment: &str)
    ensures
        final(out)@ == old(out)@ + encode_dynamic(fragment.spec_bytes()),
{
    let bytes = fragment.as_bytes();
    let mut i: usize = 0;
    while i < bytes.len()
        invariant
            i <= bytes@.len(),
            out@ == old(out)@ + encode_dynamic(bytes@.take(i as int)),
        decreases bytes@.len() - i,
    {
        out.append(percent_encode_user_input(bytes[i]));
        proof {
            assert(bytes@.take(i + 1).drop_last() =~= bytes@.take(i as int));
        }
        i += 1;
    }
    proof {
        assert(bytes@.take(i as int) =~= bytes@);
    }
}

/// How many values a call with so many literals and so many values
/// interpolates. Refused when there is no literal.
pub fn count_pairs(statics: usize, dynamics: usize) -> (r: Result<usize, Error>)
    ensures
        statics == 0 ==> r == Err::<usize, Error>(Error::InvalidInput),
        statics > 0 ==> r is Ok && r->Ok_0 == pair_count(statics as int, dynamics as int),
{
    if statics == 0 {
        Err(Error::InvalidInput)
    } else if statics - 1 <= dynamics {
        Ok(statics - 1)
    } else {
        Ok(dynamics)
    }
}

/// Builds the path for a template call. Fails exactly when there is no
/// literal fragment; values beyond the last literal, and literals beyond the
/// one that follows the last value, are left out.
pub fn interpolate_fragments(statics: &[&str], dynamics: &[&str]) -> (r: Result<String, Error>)
    ensures
        statics@.len() == 0 ==> r == Err::<String, Error>(Error::InvalidInput),
        statics@.len() > 0 ==> r is Ok && r->Ok_0@ == interpolated(
            fragment_bytes(statics@),
            fragment_bytes(dynamics@),
        ),
{
    let pairs = count_pairs(statics.len(), dynamics.len())?;
    let ghost s = fragment_bytes(statics@);
    let ghost d = fragment_bytes(dynamics@);
    let mut out = String::new();
    push_static(&mut out, statics[0]);
    let mut k: usize = 0;
    while k < pairs
        invariant
            s == fragment_bytes(statics@),
            d == fragment_bytes(dynamics@),
            k <= pairs < statics@.len(),
            pairs <= dynamics@.len(),
            out@ == interpolated_prefix(s, d, k as int),
        decreases pairs - k,
    {
        push_dynamic(&mut out, dynamics[k]);
        push_static(&mut out, statics[k + 1]);
        k += 1;
    }
    Ok(out)
}

/// The first `k` pairs depend on the first `k + 1` literals and the first `k`
/// values, and on nothing else.
pub proof fn lemma_prefix_reads_its_fragments_only(
    statics: Seq<Seq<u8>>,
    dynamics: Seq<Seq<u8>>,
    other_statics: Seq<Seq<u8>>,
    other_dynamics: Seq<Seq<u8>>,
    k: int,
)
    requires
        0 <= k < statics.len(),
        k < other_statics.len(),
        k <= dynamics.len(),
        k <= other_dynamics.len(),
        forall|i: int| 0 <= i <= k ==> statics[i] == other_statics[i],
        forall|i: int| 0 <= i < k ==> dynamics[i] == other_dynamics[i],
    ensures
        interpolated_prefix(statics, dynamics, k) == interpolated_prefix(
            other_statics,
            other_dynamics,
            k,
        ),
    decreases k,
{
    if k > 0 {
        lemma_prefix_reads_its_fragments_only(
            statics,
            dynamics,
            other_statics,
            other_dynamics,
            k - 1,
        );
    }
}

/// Values beyond the last literal are ignored: with more values than
/// literals after the first, the path is that of the values that have a
/// literal after them.
pub proof fn lemma_excess_dynamics_ignored(statics: Seq<Seq<u8>>, dynamics: Seq<Seq<u8>>)
    requires
        statics.len() > 0,
        dynamics.len() > statics.len() - 1,
    ensures
        interpolated(statics, dynamics) == interpolated(
            statics,
            dynamics.take(statics.len() - 1),
        ),
{
    lemma_prefix_reads_its_fragments_only(
        statics,
        dynamics,
        statics,
        dynamics.take(statics.len() - 1),
        statics.len() - 1,
    );
}

/// Literals beyond the one that follows the last value are ignored.
pub proof fn lemma_excess_statics_ignored(statics: Seq<Seq<u8>>, dynamics: Seq<Seq<u8>>)
    requires
        statics.len() > dynamics.len() + 1,
    ensures
        interpolated(statics, dynamics) == interpolated(
            statics.take(dynamics.len() as int + 1),
            dynamics,
        ),
{
    lemma_prefix_reads_its_fragments_only(
        statics,
        dynamics,
        statics.take(dynamics.len() as int + 1),
        dynamics,
        dynamics.len() as int,
    );
}

/// Each byte as the character with the same code.
pub open spec fn bytes_as_chars(bytes: Seq<u8>) -> Seq<char> {
    Seq::new(bytes.len(), |i: int| bytes[i] as char)
}

/// A fragment of unreserved bytes is its own encoding, as a literal and as a
/// value.
pub proof fn lemma_unreserved_fragment_unchanged(bytes: Seq<u8>)
    requires
        forall|i: int| 0 <= i < bytes.len() ==> is_unreserved(#[trigger] bytes[i]),
    ensures
        encode_dynamic(bytes) == bytes_as_chars(bytes),
        encode_static(bytes) == bytes_as_chars(bytes),
    decreases bytes.len(),
{
    if bytes.len() > 0 {
        lemma_unreserved_fragment_unchanged(bytes.drop_last());
        assert(bytes_as_chars(bytes) =~= bytes_as_chars(bytes.drop_last()) + seq![
            bytes.last() as char,
        ]);
    }
    assert(encode_dynamic(bytes) =~= bytes_as_chars(bytes));
    assert(encode_static(bytes) =~= bytes_as_chars(bytes));
}

/// Encoding runs byte by byte: a fragment in two parts is encoded part by
/// part.
pub proof fn lemma_encode_concat(a: Seq<u8>, b: Seq<u8>)
    ensures
        encode_static(a + b) == encode_static(a) + encode_static(b),
        encode_dynamic(a + b) == encode_dynamic(a) + encode_dynamic(b),
    decreases b.len(),
{
    if b.len() == 0 {
        assert(a + b =~= a);
        assert(encode_static(a) + encode_static(b) =~= encode_static(a));
        assert(encode_dynamic(a) + encode_dynamic(b) =~= encode_dynamic(a));
    } else {
        lemma_encode_concat(a, b.drop_last());
        assert((a + b).drop_last() =~= a + b.drop_last());
        assert(encode_static(a + b) =~= encode_static(a) + encode_static(b));
        assert(encode_dynamic(a + b) =~= encode_dynamic(a) + encode_dynamic(b));
    }
}

/// The characters that a path can consist of: what an encoded value holds,
/// and the path separator.
pub open spec fn is_path_char(c: char) -> bool {
    is_escape_safe(c) || c == '/'
}

/// Text of `%` and unreserved characters only.
pub open spec fn is_escape_safe_text(chars: Seq<char>) -> bool {
    forall|i: int| 0 <= i < chars.len() ==> is_escape_safe(#[trigger] chars[i])
}

/// Text of `%`, unreserved characters and `/` only.
pub open spec fn is_path_text(chars: Seq<char>) -> bool {
    forall|i: int| 0 <= i < chars.len() ==> is_path_char(#[trigger] chars[i])
}

/// An encoded value holds `%` and unreserved characters only. In particular
/// it holds no `/`: a value cannot open a path segment.
pub proof fn lemma_dynamic_is_escape_safe(bytes: Seq<u8>)
    ensures
        is_escape_safe_text(encode_dynamic(bytes)),
        !encode_dynamic(bytes).contains('/'),
    decreases bytes.len(),
{
    if bytes.len() > 0 {
        lemma_dynamic_is_escape_safe(bytes.drop_last());
    }
}

/// An encoded literal holds `%`, unreserved characters and `/` only.
pub proof fn lemma_static_is_path_text(bytes: Seq<u8>)
    ensures
        is_path_text(encode_static(bytes)),
    decreases bytes.len(),
{
    if bytes.len() > 0 {
        lemma_static_is_path_text(bytes.drop_last());
    }
}

/// The first literal and any number of pairs after it hold `%`, unreserved
/// characters and `/` only.
pub proof fn lemma_prefix_is_path_text(statics: Seq<Seq<u8>>, dynamics: Seq<Seq<u8>>, k: int)
    ensures
        is_path_text(interpolated_prefix(statics, dynamics, k)),
    decreases k,
{
    if k > 0 {
        lemma_prefix_is_path_text(statics, dynamics, k - 1);
        lemma_dynamic_is_escape_safe(dynamics[k - 1]);
        lemma_static_is_path_text(statics[k]);
    } else {
        lemma_static_is_path_text(statics[0]);
    }
}

/// An interpolated path holds `%`, unreserved characters and `/` only,
/// whatever the fragments were.
pub proof fn lemma_interpolated_is_path_text(statics: Seq<Seq<u8>>, dynamics: Seq<Seq<u8>>)
    ensures
        is_path_text(interpolated(statics, dynamics)),
{
    lemma_prefix_is_path_text(
        statics,
        dynamics,
        pair_count(statics.len() as int, dynamics.len() as int),
    );
}

/// How many path separators a text holds.
pub open spec fn solidus_count(chars: Seq<char>) -> nat
    decreases chars.len(),
{
    if chars.len() == 0 {
        0
    } else if chars.last() == '/' {
        solidus_count(chars.drop_last()) + 1
    } else {
        solidus_count(chars.drop_last())
    }
}

/// How many path separators the first `count` literals hold, as bytes.
pub open spec fn literal_solidus_count(statics: Seq<Seq<u8>>, count: int) -> nat
    decreases count,
{
    if count <= 0 {
        0
    } else {
        literal_solidus_count(statics, count - 1) + solidus_count(
            bytes_as_chars(statics[count - 1]),
        )
    }
}

/// The separators of a text in two parts are those of the parts.
pub proof fn lemma_solidus_count_concat(a: Seq<char>, b: Seq<char>)
    ensures
        solidus_count(a + b) == solidus_count(a) + solidus_count(b),
    decreases b.len(),
{
    if b.len() == 0 {
        assert(a + b =~= a);
    } else {
        lemma_solidus_count_concat(a, b.drop_last());
        assert((a + b).drop_last() =~= a + b.drop_last());
    }
}

/// A text without `/` holds no separator.
pub proof fn lemma_solidus_count_without_solidus(chars: Seq<char>)
    requires
        !chars.contains('/'),
    ensures
        solidus_count(chars) == 0,
    decreases chars.len(),
{
    if chars.len() > 0 {
        let front = chars.drop_last();
        assert forall|i: int| 0 <= i < front.len() implies front[i] != '/' by {
            assert(chars[i] == front[i]);
        }
        assert(chars.last() == chars[chars.len() - 1]);
        lemma_solidus_count_without_solidus(front);
    }
}

/// Encoding a literal keeps each of its separators and adds none; encoding a
/// value leaves none.
pub proof fn lemma_encoding_and_separators(bytes: Seq<u8>)
    ensures
        solidus_count(encode_static(bytes)) == solidus_count(bytes_as_chars(bytes)),
        solidus_count(encode_dynamic(bytes)) == 0,
    decreases bytes.len(),
{
    if bytes.len() > 0 {
        let front = bytes.drop_last();
        let b = bytes.last();
        lemma_encoding_and_separators(front);
        lemma_solidus_count_concat(encode_static(front), encoded_no_slash(b));
        lemma_solidus_count_concat(encode_dynamic(front), encoded_user_input(b));
        assert(bytes_as_chars(bytes).drop_last() =~= bytes_as_chars(front));
        assert(bytes_as_chars(bytes).last() == b as char);
        lemma_user_input_is_escape_safe(b);
        lemma_solidus_count_without_solidus(encoded_user_input(b));
        if b == SOLIDUS_BYTE {
            assert(encoded_no_slash(b).last() == '/');
            assert(solidus_count(encoded_no_slash(b).drop_last()) == 0);
        } else {
            assert(b as char != '/');
        }
    }
}

/// The separators of the first literal and `k` pairs are those of the
/// literals among them.
pub proof fn lemma_prefix_separators(
    statics: Seq<Seq<u8>>,
    dynamics: Seq<Seq<u8>>,
    k: int,
)
    requires
        0 <= k,
    ensures
        solidus_count(interpolated_prefix(statics, dynamics, k)) == literal_solidus_count(
            statics,
            k + 1,
        ),
    decreases k,
{
    lemma_encoding_and_separators(statics[k]);
    if k > 0 {
        let before = interpolated_prefix(statics, dynamics, k - 1);
        let value = encode_dynamic(dynamics[k - 1]);
        lemma_prefix_separators(statics, dynamics, k - 1);
        lemma_encoding_and_separators(dynamics[k - 1]);
        lemma_solidus_count_concat(before, value);
        lemma_solidus_count_concat(before + value, encode_static(statics[k]));
    } else {
        assert(literal_solidus_count(statics, 0) == 0);
    }
}

/// The separators of a path are those of its literals: whatever the values
/// hold, they add no path segment and remove none.
pub proof fn lemma_separators_come_from_literals(statics: Seq<Seq<u8>>, dynamics: Seq<Seq<u8>>)
    requires
        statics.len() > 0,
    ensures
        solidus_count(interpolated(statics, dynamics)) == literal_solidus_count(
            statics,
            pair_count(statics.len() as int, dynamics.len() as int) + 1,
        ),
{
    lemma_prefix_separators(
        statics,
        dynamics,
        pair_count(statics.len() as int, dynamics.len() as int),
    );
}

} // verus!
