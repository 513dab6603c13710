//! The interpolation entry point: from descriptors in the arena to the
//! descriptor of a freshly reserved path.
use vstd::prelude::*;
use vstd::string::*;
use vstd::utf8::{encode_utf8, is_ascii_chars, is_ascii_chars_encode_utf8};
use crate::arena::Arena;
use crate::descriptor::{WasmString, WasmStrings};
use crate::error::Error;
use crate::template::{
    count_pairs,
    fragment_bytes,
    interpolate_fragments,
    interpolated,
    is_path_char,
    lemma_interpolated_is_path_text,
    lemma_prefix_reads_its_fragments_only,
    pair_count,
};

verus! {

/// The bytes that each descriptor of a list names.
pub open spec fn descriptor_bytes(
    memory: Seq<Option<Seq<u8>>>,
    descriptors: Seq<WasmString>,
) -> Seq<Seq<u8>> {
    Seq::new(descriptors.len(), |i: int| descriptors[i].bytes_in(memory))
}

/// Why the first literal and the first `k` pairs cannot all be read as text,
/// if they cannot. The first literal is read first, then pair by pair the
/// literal and after it the value; the first failure is the one reported.
pub open spec fn first_fault(
    memory: Seq<Option<Seq<u8>>>,
    statics: Seq<WasmString>,
    dynamics: Seq<WasmString>,
    k: int,
) -> Option<Error>
    recommends
        0 <= k < statics.len(),
        k <= dynamics.len(),
    decreases k,
{
    if k <= 0 {
        match statics[0].text_in(memory) {
            Err(e) => Some(e),
            Ok(_) => None,
        }
    } else {
        match first_fault(memory, statics, dynamics, k - 1) {
            Some(e) => Some(e),
            None => match statics[k].text_in(memory) {
                Err(e) => Some(e),
                Ok(_) => match dynamics[k - 1].text_in(memory) {
                    Err(e) => Some(e),
                    Ok(_) => None,
                },
            },
        }
    }
}

/// The bytes of a text of ASCII characters.
pub open spec fn ascii_bytes(chars: Seq<char>) -> Seq<u8> {
    Seq::new(chars.len(), |i: int| chars[i] as u8)
}

/// What a call yields: the bytes of the path, or the reason for refusing.
/// Only the fragments that the path is made of are read; a descriptor beyond
/// them may name anything.
pub open spec fn interpolation_outcome(
    memory: Seq<Option<Seq<u8>>>,
    statics: Seq<WasmString>,
    dynamics: Seq<WasmString>,
) -> Result<Seq<u8>, Error> {
    if statics.len() == 0 {
        Err(Error::InvalidInput)
    } else {
        match first_fault(
            memory,
            statics,
            dynamics,
            pair_count(statics.len() as int, dynamics.len() as int),
        ) {
            Some(e) => Err(e),
            None => Ok(
                ascii_bytes(
                    interpolated(
                        descriptor_bytes(memory, statics),
                        descriptor_bytes(memory, dynamics),
                    ),
                ),
            ),
        }
    }
}

/// A failure among the first pairs is the failure of the whole call.
proof fn lemma_fault_persists(
    memory: Seq<Option<Seq<u8>>>,
    statics: Seq<WasmString>,
    dynamics: Seq<WasmString>,
    k: int,
    n: int,
)
    requires
        k <= n,
        first_fault(memory, statics, dynamics, k) is Some,
    ensures
        first_fault(memory, statics, dynamics, n) == first_fault(memory, statics, dynamics, k),
    decreases n - k,
{
    if k < n {
        lemma_fault_persists(memory, statics, dynamics, k, n - 1);
        if n <= 0 {
            assert(k <= 0);
        }
    }
}

/// Whether the first `k` pairs can be read depends on the descriptors of
/// those pairs, and on no other.
pub proof fn lemma_fault_reads_its_descriptors_only(
    memory: Seq<Option<Seq<u8>>>,
    statics: Seq<WasmString>,
    dynamics: Seq<WasmString>,
    other_statics: Seq<WasmString>,
    other_dynamics: Seq<WasmString>,
    k: int,
)
    requires
        0 <= k < statics.len(),
        k < other_statics.len(),
        k <= dynamics.len(),
        k <= other_dynamics.len(),
        forall|i: int| 0 <= i <= k ==> statics[i] == other_statics[i],
        forall|i: int| 0 <= i < k ==> dynamics[i] == other_dynamics[i],
    ensures
        first_fault(memory, statics, dynamics, k) == first_fault(
            memory,
            other_statics,
            other_dynamics,
            k,
        ),
    decreases k,
{
    if k > 0 {
        lemma_fault_reads_its_descriptors_only(
            memory,
            statics,
            dynamics,
            other_statics,
            other_dynamics,
            k - 1,
        );
    }
}

/// Values beyond the last literal are never read: a call with more values
/// than literals after the first yields what it yields without the excess,
/// whatever the excess descriptors name.
pub proof fn lemma_excess_values_not_read(
    memory: Seq<Option<Seq<u8>>>,
    statics: Seq<WasmString>,
    dynamics: Seq<WasmString>,
)
    requires
        statics.len() > 0,
        dynamics.len() > statics.len() - 1,
    ensures
        interpolation_outcome(memory, statics, dynamics) == interpolation_outcome(
            memory,
            statics,
            dynamics.take(statics.len() - 1),
        ),
{
    let kept = dynamics.take(statics.len() - 1);
    let pairs = statics.len() - 1;
    lemma_fault_reads_its_descriptors_only(memory, statics, dynamics, statics, kept, pairs);
    lemma_prefix_reads_its_fragments_only(
        descriptor_bytes(memory, statics),
        descriptor_bytes(memory, dynamics),
        descriptor_bytes(memory, statics),
        descriptor_bytes(memory, kept),
        pairs,
    );
}

/// A path is text of ASCII characters, so its bytes are its characters.
proof fn lemma_path_bytes(statics: Seq<Seq<u8>>, dynamics: Seq<Seq<u8>>)
    requires
        statics.len() > 0,
    ensures
        encode_utf8(interpolated(statics, dynamics)) == ascii_bytes(
            interpolated(statics, dynamics),
        ),
{
    let path = interpolated(statics, dynamics);
    lemma_interpolated_is_path_text(statics, dynamics);
    assert forall|i: int| 0 <= i < path.len() implies '\0' <= #[trigger] path[i] <= '\u{7f}' by {
        assert(is_path_char(path[i]));
    }
    assert(is_ascii_chars(path));
    is_ascii_chars_encode_utf8(path);
    assert(encode_utf8(path) =~= ascii_bytes(path));
}

/// Builds the path of a template call in a region of its own.
///
/// The literals and the values are read from the arena and stay untouched and
/// live: the engine releases nothing. The path is the first literal, then
/// each value with the literal after it, until either list runs out; literals
/// keep their `/`, values have it escaped. The returned descriptor names a
/// region reserved by this call, which holds exactly the path and is the
/// caller's to release.
///
/// Refused, with the arena unchanged: a call without literals
/// (`InvalidInput`), and one in which a fragment of the path does not lie in
/// a live region (`MemoryMisuse`) or is not UTF-8 (`InvalidText`).
pub fn interpolate(arena: &mut Arena, statics: &WasmStrings, dynamics: &WasmStrings) -> (r: Result<
    WasmString,
    Error,
>)
    ensures
        match interpolation_outcome(old(arena)@, statics@, dynamics@) {
            Ok(path) => r is Ok && r->Ok_0.data == old(arena)@.len() && r->Ok_0.size == path.len()
                && final(arena)@ == old(arena)@.push(Some(path)),
            Err(e) => r == Err::<WasmString, Error>(e) && final(arena)@ == old(arena)@,
        },
{
    let literals = statics.iter();
    let values = dynamics.iter();
    let pairs = count_pairs(literals.len(), values.len())?;
    let ghost memory = arena@;
    let mut literal_texts: Vec<&str> = Vec::new();
    let mut value_texts: Vec<&str> = Vec::new();
    match literals[0].as_str(arena) {
        Ok(text) => literal_texts.push(text),
        Err(e) => {
            proof {
                lemma_fault_persists(memory, literals@, values@, 0, pairs as int);
            }
            return Err(e);
        },
    }
    let mut k: usize = 0;
    while k < pairs
        invariant
            arena@ == memory,
            memory == old(arena)@,
            literals@ == statics@,
            values@ == dynamics@,
            pairs == pair_count(literals@.len() as int, values@.len() as int),
            k <= pairs < literals@.len(),
            pairs <= values@.len(),
            first_fault(memory, literals@, values@, k as int) is None,
            literal_texts@.len() == k + 1,
            value_texts@.len() == k,
            forall|i: int|
                0 <= i <= k ==> (#[trigger] literal_texts@[i]).spec_bytes()
                    == literals@[i].bytes_in(memory),
            forall|i: int|
                0 <= i < k ==> (#[trigger] value_texts@[i]).spec_bytes() == values@[i].bytes_in(
                    memory,
                ),
        decreases pairs - k,
    {
        let literal = match literals[k + 1].as_str(arena) {
            Ok(text) => text,
            Err(e) => {
                proof {
                    lemma_fault_persists(memory, literals@, values@, k + 1, pairs as int);
                }
                return Err(e);
            },
        };
        let value = match values[k].as_str(arena) {
            Ok(text) => text,
            Err(e) => {
                proof {
                    lemma_fault_persists(memory, literals@, values@, k + 1, pairs as int);
                }
                return Err(e);
            },
        };
        literal_texts.push(literal);
        value_texts.push(value);
        k += 1;
    }
    let path = interpolate_fragments(literal_texts.as_slice(), value_texts.as_slice())?;
    proof {
        let all_literals = descriptor_bytes(memory, statics@);
        let all_values = descriptor_bytes(memory, dynamics@);
        lemma_prefix_reads_its_fragments_only(
            fragment_bytes(literal_texts@),
            fragment_bytes(value_texts@),
            all_literals,
            all_values,
            pairs as int,
        );
        lemma_path_bytes(all_literals, all_values);
    }
    Ok(WasmString::from_string(path, arena))
}

} // verus!
