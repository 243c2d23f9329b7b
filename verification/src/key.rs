//! Keys and key pairs: the identity of a master, an agent or a publisher.
//!
//! A key is 32 bytes. Operators read and write keys as base64 text; a key
//! pair is kept in a file of its own, the public half first.

use crate::errors::{plain, Error, ErrorView};
use vstd::prelude::*;
use vstd::slice::*;
use vstd::string::*;
use vstd::utf8::*;

verus! {

/// How many bytes a key holds.
pub const KEY_LEN: usize = 32;

/// The bytes of a key.
pub type KEY = [u8; 32];

/// One key: the public or the private half of a pair.
#[derive(Clone, Copy, Debug, PartialEq, Eq)]
pub struct Key(pub [u8; 32]);

impl View for Key {
    type V = Seq<u8>;

    open spec fn view(&self) -> Seq<u8> {
        self.0@
    }
}

impl DeepView for Key {
    type V = Seq<u8>;

    open spec fn deep_view(&self) -> Seq<u8> {
        self@
    }
}

/// A key pair.
#[derive(Clone, Copy, Debug, PartialEq, Eq)]
pub struct Pair {
    pub public: Key,
    pub private: Key,
}

/// A key pair as plain values: the bytes of its two halves.
pub struct PairView {
    pub public: Seq<u8>,
    pub private: Seq<u8>,
}

impl View for Pair {
    type V = PairView;

    open spec fn view(&self) -> PairView {
        PairView { public: self.public@, private: self.private@ }
    }
}

impl DeepView for Pair {
    type V = PairView;

    open spec fn deep_view(&self) -> PairView {
        self@
    }
}

/// `base64::DecodeError`: why `base64::decode` gave up. It is passed on
/// unopened.
#[verifier::external_type_specification]
#[verifier::external_body]
pub struct ExDecodeError(base64::DecodeError);

/// The text that `base64::encode` gives for `bytes`.
pub uninterp spec fn base64_text(bytes: Seq<u8>) -> Seq<char>;

/// The bytes that `base64::decode` gives for `text`, `None` where it reports
/// an error.
pub uninterp spec fn base64_bytes(text: Seq<char>) -> Option<Seq<u8>>;

/// `base64::encode` on the bytes of a key. The result is a function of the
/// bytes alone; it is named, not spelled out.
#[verifier::external_body]
fn base64_encode(bytes: &[u8; 32]) -> (r: String)
    ensures
        r@ == base64_text(bytes@),
{
    base64::encode(bytes)
}

/// `base64::decode`. It reports an error or gives bytes, as a function of the
/// text alone. It panics where the text's length plus seven overflows, so
/// such text is left out.
#[verifier::external_body]
fn base64_decode(text: &str) -> (r: Result<Vec<u8>, base64::DecodeError>)
    requires
        text.spec_bytes().len() + 7 <= usize::MAX,
    ensures
        match r {
            Ok(bytes) => base64_bytes(text@) == Some(bytes@),
            Err(_) => base64_bytes(text@) is None,
        },
{
    base64::decode(text)
}

/// `zmq::CurveKeyPair::new`: a new pair from the system's randomness, public
/// half first, `None` where the call reports an error. Nothing is claimed of
/// the keys.
#[verifier::external_body]
fn curve_keypair() -> (made: Option<([u8; 32], [u8; 32])>) {
    match zmq::CurveKeyPair::new() {
        Ok(pair) => Some((pair.public_key, pair.secret_key)),
        Err(_) => None,
    }
}

/// What `Key::from_str` makes of text: the first 32 bytes that the text
/// stands for. Text that is too long for the machine to decode counts as not
/// base64.
pub open spec fn key_of_text(text: Seq<char>) -> Result<Seq<u8>, ErrorView> {
    if encode_utf8(text).len() + 7 > usize::MAX {
        Err(ErrorView::Base64)
    } else {
        match base64_bytes(text) {
            None => Err(ErrorView::Base64),
            Some(bytes) => if bytes.len() < KEY_LEN {
                Err(ErrorView::KeyLength)
            } else {
                Ok(bytes.subrange(0, KEY_LEN as int))
            },
        }
    }
}

/// What `Pair::decode` makes of the bytes of a key file.
pub open spec fn pair_of_bytes(stored: Seq<u8>) -> Result<PairView, ErrorView> {
    match pair_read(stored) {
        Some(pair) => Ok(pair),
        None => Err(ErrorView::Crypto),
    }
}

/// How a pair is shown to an operator.
pub open spec fn pair_text(pair: PairView) -> Seq<char> {
    "pub: "@ + base64_text(pair.public) + "\npri: "@ + base64_text(pair.private)
}

/// A key pair, written down: the public half, then the private one.
pub open spec fn pair_bytes(pair: PairView) -> Seq<u8> {
    pair.public + pair.private
}

/// What a key file holds, where it holds a pair.
pub open spec fn pair_read(stored: Seq<u8>) -> Option<PairView> {
    if stored.len() == 2 * KEY_LEN {
        Some(
            PairView {
                public: stored.subrange(0, KEY_LEN as int),
                private: stored.subrange(KEY_LEN as int, 2 * KEY_LEN),
            },
        )
    } else {
        None
    }
}

/// What a key file holds, as plain bytes.
pub open spec fn stored_bytes(stored: Option<&[u8]>) -> Option<Seq<u8>> {
    match stored {
        Some(bytes) => Some(bytes@),
        None => None,
    }
}

/// Whether both halves have the length of a key.
pub open spec fn pair_wf(pair: PairView) -> bool {
    pair.public.len() == KEY_LEN && pair.private.len() == KEY_LEN
}

/// A file that was created for a pair holds that pair, byte for byte.
pub proof fn lemma_stored_pair_loads(pair: PairView)
    requires
        pair_wf(pair),
    ensures
        pair_read(pair_bytes(pair)) == Some(pair),
{
    let stored = pair_bytes(pair);
    assert(stored.subrange(0, KEY_LEN as int) =~= pair.public);
    assert(stored.subrange(KEY_LEN as int, 2 * KEY_LEN) =~= pair.private);
}

/// A file holds a pair only if it is the pair's encoding, byte for byte.
pub proof fn lemma_pair_bytes_exact(stored: Seq<u8>)
    ensures
        pair_read(stored) matches Some(pair) ==> pair_wf(pair) && pair_bytes(pair) == stored,
{
    if let Some(pair) = pair_read(stored) {
        assert(pair_bytes(pair) =~= stored);
    }
}

/// What opening a key file comes to: the pair, and the bytes to create the
/// file with where it was not there. `stored` is what the file holds, `None`
/// where there is no file; `made` is what making a new pair gives, `None`
/// where that fails. A file that is there is read and nothing is stored;
/// what making a pair would give is not looked at.
pub open spec fn opened(stored: Option<Seq<u8>>, made: Option<PairView>) -> Result<
    (PairView, Option<Seq<u8>>),
    ErrorView,
> {
    match stored {
        Some(bytes) => match pair_read(bytes) {
            Some(pair) => Ok((pair, None)),
            None => Err(ErrorView::Crypto),
        },
        None => match made {
            Some(pair) => Ok((pair, Some(pair_bytes(pair)))),
            None => Err(ErrorView::Crypto),
        },
    }
}

/// Opening is idempotent. The first opening, without a file, gives the pair
/// that was made and the bytes of its file. Every later opening, of that
/// file, gives the same pair, stores nothing, and does not depend on what
/// making a pair would give: no pair is made again.
pub proof fn lemma_open_twice(made: PairView, later: Option<PairView>)
    requires
        pair_wf(made),
    ensures
        opened(None, Some(made)) == Ok::<(PairView, Option<Seq<u8>>), ErrorView>(
            (made, Some(pair_bytes(made))),
        ),
        opened(Some(pair_bytes(made)), later) == Ok::<(PairView, Option<Seq<u8>>), ErrorView>(
            (made, None),
        ),
{
    lemma_stored_pair_loads(made);
}

impl Key {
    /// The key made of the first 32 bytes of `bytes`.
    pub fn from_bytes(bytes: &[u8]) -> (key: Key)
        requires
            bytes@.len() >= KEY_LEN,
        ensures
            key@ == bytes@.subrange(0, KEY_LEN as int),
    {
        let mut raw: [u8; 32] = [0u8; 32];
        let mut i: usize = 0;
        while i < KEY_LEN
            invariant
                i <= KEY_LEN,
                bytes@.len() >= KEY_LEN,
                forall|j: int| 0 <= j < i ==> raw@[j] == bytes@[j],
            decreases KEY_LEN - i,
        {
            raw[i] = bytes[i];
            i += 1;
        }
        assert(raw@ =~= bytes@.subrange(0, KEY_LEN as int));
        Key(raw)
    }

    /// Reads a key from its base64 text. Bytes after the 32nd are ignored.
    pub fn from_str(s: &str) -> (r: Result<Key, Error>)
        ensures
            plain(r) == key_of_text(s@),
    {
        let raw = s.as_bytes();
        assert(raw@.len() == raw.len());
        if raw.len() > usize::MAX - 7 {
            return Err(Error::Base64);
        }
        match base64_decode(s) {
            Err(_) => Err(Error::Base64),
            Ok(bytes) => {
                if bytes.len() < KEY_LEN {
                    Err(Error::KeyLength)
                } else {
                    Ok(Key::from_bytes(bytes.as_slice()))
                }
            },
        }
    }

    /// The key as base64 text.
    pub fn to_string(&self) -> (r: String)
        ensures
            r@ == base64_text(self@),
    {
        base64_encode(&self.0)
    }

    /// Whether two keys hold the same bytes.
    pub fn same(&self, other: &Key) -> (r: bool)
        ensures
            r == (self@ == other@),
    {
        crate::text::same_bytes(self.0.as_slice(), other.0.as_slice())
    }
}

impl Pair {
    /// The pair as the bytes of its key file.
    pub fn encode(&self) -> (r: Vec<u8>)
        ensures
            r@ == pair_bytes(self@),
    {
        let mut out: Vec<u8> = Vec::new();
        crate::wire::put_bytes(&mut out, self.public.0.as_slice());
        crate::wire::put_bytes(&mut out, self.private.0.as_slice());
        out
    }

    /// Reads a pair from the bytes of its key file.
    pub fn decode(stored: &[u8]) -> (r: Result<Pair, Error>)
        ensures
            plain(r) == pair_of_bytes(stored@),
    {
        if stored.len() != 2 * KEY_LEN {
            return Err(Error::Crypto);
        }
        let public = Key::from_bytes(slice_subrange(stored, 0, KEY_LEN));
        let private = Key::from_bytes(slice_subrange(stored, KEY_LEN, 2 * KEY_LEN));
        proof {
            let s = stored@;
            assert(s.subrange(0, KEY_LEN as int).subrange(0, KEY_LEN as int) =~= s.subrange(
                0,
                KEY_LEN as int,
            ));
            assert(s.subrange(KEY_LEN as int, 2 * KEY_LEN).subrange(0, KEY_LEN as int)
                =~= s.subrange(KEY_LEN as int, 2 * KEY_LEN));
        }
        Ok(Pair { public, private })
    }

    /// The pair of a role, given what its key file holds, `None` where there
    /// is no file yet. An existing file is read and never written: the pair
    /// comes back with no bytes to store. Without a file a new pair is made,
    /// and comes back with the bytes that the file is to be created with.
    pub fn new(stored: Option<&[u8]>) -> (r: Result<(Pair, Option<Vec<u8>>), Error>)
        ensures
            exists|made: Option<PairView>|
                (made matches Some(pair) ==> pair_wf(pair)) && plain(r) == #[trigger] opened(
                    stored_bytes(stored),
                    made,
                ),
    {
        match stored {
            Some(bytes) => {
                let r = match Pair::decode(bytes) {
                    Ok(pair) => Ok((pair, None)),
                    Err(e) => Err(e),
                };
                assert(plain(r) == opened(stored_bytes(stored), None));
                r
            },
            None => match curve_keypair() {
                Some((public, private)) => {
                    let (pair, file) = Pair::create(public, private);
                    assert(file->0.deep_view() =~= pair_bytes(pair@));
                    let r = Ok((pair, file));
                    assert(plain(r) == opened(
                        stored_bytes(stored),
                        Some(PairView { public: public@, private: private@ }),
                    ));
                    r
                },
                None => {
                    let r = Err(Error::Crypto);
                    assert(plain(r) == opened(stored_bytes(stored), None));
                    r
                },
            },
        }
    }

    /// The pair of two fresh halves, and the bytes to create its file with.
    pub fn create(public: [u8; 32], private: [u8; 32]) -> (r: (Pair, Option<Vec<u8>>))
        ensures
            r.0@ == (PairView { public: public@, private: private@ }),
            r.1 matches Some(bytes) && bytes@ == pair_bytes(r.0@),
    {
        let pair = Pair { public: Key(public), private: Key(private) };
        let file = pair.encode();
        (pair, Some(file))
    }

    /// Both halves as base64 text, for an operator to read.
    pub fn to_string(&self) -> (r: String)
        ensures
            r@ == pair_text(self@),
    {
        let mut out = "pub: ".to_owned();
        out.append(self.public.to_string().as_str());
        out.append("\npri: ");
        out.append(self.private.to_string().as_str());
        out
    }

    /// The public half.
    pub fn fingerprint(&self) -> (key: Key)
        ensures
            key@ == self@.public,
    {
        self.public
    }
}

} // verus!
