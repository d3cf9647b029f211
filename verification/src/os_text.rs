//! Text in the operating system's own encoding.

use vstd::prelude::*;
use vstd::utf8::encode_utf8;

verus! {

/// A program name, an argument, a path or a piece of the environment, as the
/// bytes in which the platform encodes it. On Unix these may be any bytes;
/// text is encoded in UTF-8 on every platform.
#[derive(Debug)]
pub struct OsText {
    bytes: Vec<u8>,
}

impl View for OsText {
    type V = Seq<u8>;

    closed spec fn view(&self) -> Seq<u8> {
        self.bytes@
    }
}

/// The bytes of each text.
pub open spec fn texts(list: Seq<OsText>) -> Seq<Seq<u8>> {
    list.map_values(|t: OsText| t@)
}

/// Whether two byte strings are equal.
pub fn same_bytes(a: &[u8], b: &[u8]) -> (same: bool)
    ensures
        same == (a@ == b@),
{
    if a.len() != b.len() {
        return false;
    }
    let mut i: usize = 0;
    while i < a.len()
        invariant
            i <= a.len(),
            a.len() == b.len(),
            forall|k: int| 0 <= k < i ==> a@[k] == b@[k],
        decreases a.len() - i,
    {
        if a[i] != b[i] {
            return false;
        }
        i += 1;
    }
    assert(a@ == b@);
    true
}

impl OsText {
    /// The text with exactly these encoded bytes.
    pub fn from_bytes(bytes: Vec<u8>) -> (text: OsText)
        ensures
            text@ == bytes@,
    {
        OsText { bytes }
    }

    /// The encoded bytes.
    pub fn as_bytes(&self) -> (bytes: &[u8])
        ensures
            bytes@ == self@,
    {
        self.bytes.as_slice()
    }

    /// The encoded bytes, without a copy.
    pub fn into_bytes(self) -> (bytes: Vec<u8>)
        ensures
            bytes@ == self@,
    {
        self.bytes
    }

    /// Whether both texts consist of the same bytes.
    pub fn same(&self, other: &OsText) -> (same: bool)
        ensures
            same == (self@ == other@),
    {
        same_bytes(self.bytes.as_slice(), other.bytes.as_slice())
    }
}

impl Clone for OsText {
    fn clone(&self) -> (copy: OsText)
        ensures
            copy@ == self@,
    {
        OsText { bytes: vstd::slice::slice_to_vec(self.bytes.as_slice()) }
    }
}

impl From<&str> for OsText {
    fn from(text: &str) -> (os: OsText)
        ensures
            os@ == encode_utf8(text@),
    {
        OsText { bytes: vstd::slice::slice_to_vec(text.as_bytes()) }
    }
}

impl vstd::std_specs::convert::FromSpecImpl<&str> for OsText {
    open spec fn obeys_from_spec() -> bool {
        false
    }

    open spec fn from_spec(text: &str) -> OsText {
        arbitrary()
    }
}

/// Of a list of texts all bytes of every text count: nothing is left out,
/// added or moved.
pub proof fn law_texts_are_the_bytes(list: Seq<OsText>)
    ensures
        texts(list).len() == list.len(),
        forall|i: int| 0 <= i < list.len() ==> #[trigger] texts(list)[i] == list[i]@,
{
}

} // verus!
