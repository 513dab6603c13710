//! Descriptors: how byte strings in the arena are named across the boundary.
use vstd::prelude::*;
use vstd::slice::slice_to_vec;
use vstd::string::*;
use vstd::utf8::{decode_utf8, encode_utf8, encode_utf8_decode_utf8, valid_utf8};
use crate::arena::{in_bounds, Arena};
use crate::error::Error;

verus! {

/// `core::str::Utf8Error`: why bytes are not UTF-8. It is passed on unread.
#[verifier::external_type_specification]
#[verifier::external_body]
pub struct ExUtf8Error(core::str::Utf8Error);

/// `core::str::from_utf8`: succeeds exactly on well-formed UTF-8, and the
/// string it returns is the given bytes, borrowed.
#[verifier::external_body]
fn str_from_utf8(bytes: &[u8]) -> (r: Result<&str, core::str::Utf8Error>)
    ensures
        r is Ok <==> valid_utf8(bytes@),
        r is Ok ==> r->Ok_0.spec_bytes() == bytes@,
{
    core::str::from_utf8(bytes)
}

/// A byte string in the arena: the first `size` bytes of the region `data`.
/// A descriptor borrows; it does not own the region.
#[derive(Clone, Copy, Debug, PartialEq, Eq, Structural)]
pub struct WasmString {
    pub data: usize,
    pub size: usize,
}

/// A list of descriptors: the literal fragments, or the values, of one call.
pub struct WasmStrings {
    pub strings: Vec<WasmString>,
}

impl View for WasmStrings {
    type V = Seq<WasmString>;

    open spec fn view(&self) -> Seq<WasmString> {
        self.strings@
    }
}

impl WasmStrings {
    /// The descriptors of the list, in order.
    pub fn iter(&self) -> (r: Vec<WasmString>)
        ensures
            r@ == self@,
    {
        slice_to_vec(self.strings.as_slice())
    }
}

impl WasmString {
    /// The bytes that the descriptor names.
    pub open spec fn bytes_in(self, memory: Seq<Option<Seq<u8>>>) -> Seq<u8>
        recommends
            in_bounds(memory, self.data as int, 0, self.size as int),
    {
        memory[self.data as int]->0.take(self.size as int)
    }

    /// What reading the descriptor as text gives: its bytes, or the reason
    /// why it cannot be read.
    pub open spec fn text_in(self, memory: Seq<Option<Seq<u8>>>) -> Result<Seq<u8>, Error> {
        if !in_bounds(memory, self.data as int, 0, self.size as int) {
            Err(Error::MemoryMisuse)
        } else if !valid_utf8(self.bytes_in(memory)) {
            Err(Error::InvalidText)
        } else {
            Ok(self.bytes_in(memory))
        }
    }

    /// The text that the descriptor names, borrowed from the arena.
    pub fn as_str<'a>(&self, arena: &'a Arena) -> (r: Result<&'a str, Error>)
        ensures
            match self.text_in(arena@) {
                Ok(bytes) => r is Ok && r->Ok_0.spec_bytes() == bytes && r->Ok_0@ == decode_utf8(
                    bytes,
                ),
                Err(e) => r == Err::<&str, Error>(e),
            },
    {
        match arena.read(self.data, 0, self.size) {
            Ok(bytes) => {
                assert(bytes@ =~= self.bytes_in(arena@));
                match str_from_utf8(bytes) {
                    Ok(text) => {
                        proof {
                            encode_utf8_decode_utf8(text@);
                        }
                        Ok(text)
                    },
                    Err(_) => Err(Error::InvalidText),
                }
            },
            Err(e) => Err(e),
        }
    }

    /// Moves a string into a region of its own and returns the descriptor of
    /// it. The region is the caller's to release, with the descriptor's size.
    pub fn from_string(s: String, arena: &mut Arena) -> (r: WasmString)
        ensures
            r.data == old(arena)@.len(),
            r.size == encode_utf8(s@).len(),
            final(arena)@ == old(arena)@.push(Some(encode_utf8(s@))),
    {
        let bytes = slice_to_vec(s.as_str().as_bytes());
        let size = bytes.len();
        let data = arena.store(bytes);
        WasmString { data, size }
    }
}

} // verus!
