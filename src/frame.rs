use vstd::prelude::*;
use vstd::string::StringSliceAdditionalSpecFns;
use vstd::slice::slice_to_vec;
use crate::crypto::{Crypto, CryptoMethod, MAX_SECRET_LEN, max_seal_len, NONCE_LEN, TAG_LEN, KEY_LEN, PBKDF2_ITERATIONS, SALT, pbkdf2_hmac_sha256, incremented};
use crate::error::Error;
use crate::message::{Message, MessageView, decode, encode, encoding, lemma_decode_encode};

verus! {

broadcast use vstd::array::group_array_axioms;

/// Associated data of every frame: eight zero bytes, authenticated and not sent.
pub const HEADER: [u8; 8] = [0, 0, 0, 0, 0, 0, 0, 0];

/// A frame carries the nonce in the clear, then the sealed encoding of one message.
/// The receiver takes the nonce from the frame, so lost or reordered datagrams do
/// not put the two ends out of step.
pub open spec fn frame_of(sender: Crypto, nonce: Seq<u8>, m: MessageView) -> Seq<u8> {
    nonce + sender.seal_view(nonce, HEADER@, encoding(m))
}

/// The two directions between this end and its peer.
pub struct Channel {
    pub sender: Crypto,
    pub receiver: Crypto,
}

impl Channel {
    pub open spec fn wf(&self) -> bool {
        self.sender.wf() && self.receiver.wf()
    }

    /// `frame` carries a nonce of the receiving context's length and, sealed under it,
    /// the encoding of `m`.
    pub open spec fn accepts(&self, frame: Seq<u8>, m: MessageView) -> bool {
        let n = self.receiver.nonce_len() as int;
        &&& frame.len() >= n
        &&& self.receiver.opens(frame.take(n), HEADER@, frame.skip(n), encoding(m))
    }

    /// Some plaintext authenticates in `frame`, whether or not it is a message.
    pub open spec fn authenticates(&self, frame: Seq<u8>) -> bool {
        let n = self.receiver.nonce_len() as int;
        frame.len() >= n && exists|p: Seq<u8>| self.receiver.opens(frame.take(n), HEADER@, frame.skip(n), p)
    }

    /// The message that `frame` carries, if any; at most one message is accepted.
    pub open spec fn received(&self, frame: Seq<u8>) -> Option<MessageView> {
        if exists|v: MessageView| v.wf() && #[trigger] self.accepts(frame, v) {
            Some(choose|v: MessageView| v.wf() && #[trigger] self.accepts(frame, v))
        } else {
            None
        }
    }

    /// A sending and a receiving context, both derived from `secret` for `method`.
    pub fn new(method: CryptoMethod, secret: &str) -> (r: Channel)
        requires
            secret@.len() * 4 <= MAX_SECRET_LEN,
        ensures
            r.wf(),
            r.sender.kind() == Some(method),
            r.receiver.kind() == Some(method),
            r.sender.key_view() == pbkdf2_hmac_sha256(PBKDF2_ITERATIONS, SALT@, secret.spec_bytes(), KEY_LEN as nat),
            r.receiver.key_view() == r.sender.key_view(),
    {
        let sender = Crypto::from_shared_key(method, secret);
        let receiver = Crypto::from_shared_key(method, secret);
        Channel { sender, receiver }
    }

    /// Encodes `m`, seals it with the next nonce of the sending context, and returns
    /// the frame.
    pub fn seal_message(&mut self, m: &Message) -> (r: Vec<u8>)
        requires
            old(self).wf(),
            old(self).sender.kind() matches Some(k) ==> encoding(m@).len() <= max_seal_len(k),
            encoding(m@).len() + TAG_LEN <= usize::MAX,
        ensures
            final(self).wf(),
            final(self).receiver == old(self).receiver,
            final(self).sender.kind() == old(self).sender.kind(),
            final(self).sender.key_view() == old(self).sender.key_view(),
            final(self).sender.nonce_view() == incremented(old(self).sender.nonce_view()),
            final(self).sender.nonce_view().len() == final(self).sender.nonce_len(),
            r@ == frame_of(final(self).sender, final(self).sender.nonce_view(), m@),
    {
        let bytes = encode(m);
        let mlen = bytes.len();
        let mut buf = bytes;
        buf.resize(mlen + TAG_LEN, 0u8);
        assert(buf@.take(mlen as int) =~= bytes@);
        let mut nonce: Vec<u8> = vec![0u8; NONCE_LEN];
        let n = self.sender.encrypt(buf.as_mut_slice(), mlen, nonce.as_mut_slice(), HEADER.as_slice());
        let nl = self.sender.nonce_byte();
        let mut frame = slice_to_vec(&nonce.as_slice()[0..nl]);
        frame.extend_from_slice(&buf.as_slice()[0..n]);
        proof {
            if self.sender.kind() is Some {
                assert(nonce@.subrange(0, nl as int) =~= self.sender.nonce_view());
            } else {
                assert(nonce@.subrange(0, nl as int) =~= Seq::<u8>::empty());
                assert(incremented(Seq::<u8>::empty()) == Seq::<u8>::empty());
            }
            assert(buf@.subrange(0, n as int) =~= buf@.take(n as int));
        }
        frame
    }

    /// Opens a frame and decodes the message in it. A frame in which nothing
    /// authenticates is a `Crypto` error; one whose plaintext is no message's encoding
    /// is a `Parse` error.
    pub fn open_message(&self, frame: &[u8]) -> (r: Result<Message, Error>)
        requires
            self.wf(),
        ensures
            r matches Ok(m) ==> m@.wf() && self.accepts(frame@, m@) && self.received(frame@) == Some(m@),
            r is Err <==> self.received(frame@) is None,
            forall|v: MessageView| v.wf() && #[trigger] self.accepts(frame@, v) ==> (r matches Ok(m) && m@ == v),
            r matches Err(e) ==> (e.is_crypto() <==> !self.authenticates(frame@)),
            r matches Err(e) ==> e.is_crypto() || e.is_parse(),
    {
        let nl = self.receiver.nonce_byte();
        if frame.len() < nl {
            return Err(Error::Crypto("frame shorter than a nonce"));
        }
        let nonce = &frame[0..nl];
        let mut buf = slice_to_vec(&frame[nl..frame.len()]);
        let ghost nonce_v = frame@.take(nl as int);
        let ghost sealed_v = frame@.skip(nl as int);
        assert(nonce@ =~= nonce_v);
        assert(buf@ =~= sealed_v);
        let header = HEADER.as_slice();
        assert(header@ == HEADER@);
        let res = self.receiver.decrypt(buf.as_mut_slice(), nonce, header);
        match res {
            Ok(n) => {
                let plain = &buf.as_slice()[0..n];
                assert(plain@ =~= buf@.take(n as int));
                let d = decode(plain);
                proof {
                    assert(self.receiver.opens(nonce_v, HEADER@, sealed_v, plain@));
                    assert forall|v: MessageView| v.wf() && #[trigger] self.accepts(frame@, v) implies (d matches Ok(m) && m@ == v) by {
                        assert(self.receiver.opens(nonce_v, HEADER@, sealed_v, encoding(v)));
                        assert(encoding(v).len() == plain@.len());
                        assert(plain@ =~= encoding(v));
                        if let Ok(m) = d {
                            lemma_decode_encode(v, m@);
                        }
                    }
                }
                match d {
                    Ok(m) => {
                        proof {
                            assert(self.accepts(frame@, m@));
                            let c = choose|v: MessageView| v.wf() && #[trigger] self.accepts(frame@, v);
                            assert(c == m@);
                        }
                        Ok(m)
                    },
                    Err(e) => Err(e),
                }
            },
            Err(e) => Err(e),
        }
    }
}

/// Frames survive the trip: a frame that one channel seals, a channel whose receiving
/// context has the same algorithm and key accepts as that message; `open_message`
/// then returns that message.
pub proof fn lemma_frame_round_trip(a: Channel, b: Channel, nonce: Seq<u8>, m: MessageView)
    requires
        a.sender.kind() == b.receiver.kind(),
        a.sender.key_view() == b.receiver.key_view(),
        nonce.len() == a.sender.nonce_len(),
    ensures
        b.accepts(frame_of(a.sender, nonce, m), m),
{
    let f = frame_of(a.sender, nonce, m);
    let n = nonce.len() as int;
    assert(f.take(n) =~= nonce);
    assert(f.skip(n) =~= a.sender.seal_view(nonce, HEADER@, encoding(m)));
    crate::crypto::lemma_decrypt_encrypt(a.sender, b.receiver, nonce, HEADER@, encoding(m));
}

} // verus!
