//! Peer addresses.
//!
//! A peer is known by the text form of its transport address, the form in
//! which presence notifications carry it. Two peers are the same peer when
//! their texts are equal.

use vstd::prelude::*;
use vstd::string::*;
use vstd::utf8::*;

verus! {

/// The text form of a peer's transport address, such as `192.0.2.7:1234`.
#[derive(Debug, PartialEq, Eq, Hash)]
pub struct PeerAddr {
    text: String,
}

impl View for PeerAddr {
    type V = Seq<char>;

    closed spec fn view(&self) -> Seq<char> {
        self.text@
    }
}

impl Clone for PeerAddr {
    fn clone(&self) -> (copy: Self)
        ensures
            copy@ == self@,
    {
        PeerAddr { text: self.text.clone() }
    }
}

impl PeerAddr {
    pub fn new(text: String) -> (addr: PeerAddr)
        ensures
            addr@ == text@,
    {
        PeerAddr { text }
    }

    pub fn as_str(&self) -> (text: &str)
        ensures
            text@ == self@,
    {
        self.text.as_str()
    }

    /// The address as a notification carries it.
    pub fn as_bytes(&self) -> (bytes: &[u8])
        ensures
            bytes@ == encode_utf8(self@),
    {
        self.text.as_str().as_bytes()
    }

    /// Whether both name the same peer.
    pub fn same(&self, other: &PeerAddr) -> (same: bool)
        ensures
            same == (self@ == other@),
    {
        self.text == other.text
    }
}

/// Two address texts with the same UTF-8 form are the same text.
pub proof fn lemma_text_bytes_injective(a: Seq<char>, b: Seq<char>)
    requires
        encode_utf8(a) == encode_utf8(b),
    ensures
        a == b,
{
    encode_utf8_decode_utf8(a);
    encode_utf8_decode_utf8(b);
}

} // verus!
