//! What a frame cipher must do.
use crate::buffer;
use crate::crypto::{NONCE_LEN, TAG_LEN};
use crate::shaper::FrameError;
use bytes::BytesMut;
use vstd::prelude::*;

verus! {

/// What sealing adds to a payload: a nonce in front and a tag behind.
pub open spec fn overhead() -> nat {
    (NONCE_LEN + TAG_LEN) as nat
}

/// `sealed`, which opens to `opened`, is a sealed form of `plain`.
pub open spec fn seals(
    opened: Result<Seq<u8>, FrameError>,
    sealed: Seq<u8>,
    plain: Seq<u8>,
) -> bool {
    &&& sealed.len() == plain.len() + overhead()
    &&& opened == Ok::<Seq<u8>, FrameError>(plain)
}

/// Seals and opens frame payloads. Sealing may pick a fresh nonce each time;
/// opening is a function of the sealed bytes.
pub trait FrameCipher: Send + Sync {
    /// What opening `data` gives. A cipher that is verified says what it is.
    open spec fn opened(&self, data: Seq<u8>) -> Result<Seq<u8>, FrameError> {
        arbitrary()
    }

    /// Whether payloads of `n` bytes can be sealed. A cipher that is verified
    /// says when.
    open spec fn seals_len(&self, n: nat) -> bool {
        arbitrary()
    }

    /// Seals `data`.
    fn encrypt(&self, data: &[u8]) -> (r: Result<Vec<u8>, FrameError>)
        requires
            data@.len() + overhead() <= isize::MAX,
        ensures
            r is Ok <==> self.seals_len(data@.len()),
            r matches Ok(c) ==> seals(self.opened(c@), c@, data@),
    ;

    /// Opens `data`.
    fn decrypt(&self, data: &[u8]) -> (r: Result<Vec<u8>, FrameError>)
        ensures
            match r {
                Ok(p) => self.opened(data@) == Ok::<Seq<u8>, FrameError>(p@) && p@.len() <= data@.len(),
                Err(e) => self.opened(data@) == Err::<Seq<u8>, FrameError>(e),
            },
    ;

    /// Seals `data` behind what `out` holds.
    fn encrypt_into(&self, data: &[u8], out: &mut BytesMut) -> (r: Result<(), FrameError>)
        requires
            buffer::buffered(*old(out)).len() + data@.len() + overhead() <= isize::MAX,
        ensures
            r is Ok <==> self.seals_len(data@.len()),
            buffer::buffered(*old(out)).is_prefix_of(buffer::buffered(*final(out))),
            r is Ok ==> {
                let sealed = buffer::buffered(*final(out)).skip(
                    buffer::buffered(*old(out)).len() as int,
                );
                seals(self.opened(sealed), sealed, data@)
            },
    {
        match self.encrypt(data) {
            Ok(encrypted) => {
                buffer::buf_put(out, &encrypted);
                proof {
                    let before = buffer::buffered(*old(out));
                    assert(buffer::buffered(*out).skip(before.len() as int) =~= encrypted@);
                }
                Ok(())
            },
            Err(e) => Err(e),
        }
    }

    /// Opens `data` behind what `out` holds. Where it does not open, what is behind
    /// that is of no use.
    fn decrypt_into(&self, data: &[u8], out: &mut BytesMut) -> (r: Result<(), FrameError>)
        requires
            buffer::buffered(*old(out)).len() + data@.len() <= isize::MAX,
        ensures
            match self.opened(data@) {
                Ok(p) => r is Ok && buffer::buffered(*final(out)) == buffer::buffered(*old(out)) + p,
                Err(e) => r == Err::<(), FrameError>(e) && buffer::buffered(
                    *old(out),
                ).is_prefix_of(buffer::buffered(*final(out))),
            },
    {
        match self.decrypt(data) {
            Ok(decrypted) => {
                buffer::buf_put(out, &decrypted);
                Ok(())
            },
            Err(e) => Err(e),
        }
    }

    /// Seals what `out` holds from `ct_start` on. The nonce takes the place
    /// left free for it at `nonce_start`.
    fn seal_in_place(&self, out: &mut BytesMut, nonce_start: usize, ct_start: usize) -> (r: Result<
        (),
        FrameError,
    >)
        requires
            ct_start == nonce_start + NONCE_LEN,
            ct_start <= buffer::buffered(*old(out)).len(),
            buffer::buffered(*old(out)).len() + overhead() <= isize::MAX,
        ensures
            r is Ok <==> self.seals_len((buffer::buffered(*old(out)).len() - ct_start) as nat),
            buffer::buffered(*old(out)).take(nonce_start as int).is_prefix_of(
                buffer::buffered(*final(out)),
            ),
            r is Ok ==> {
                let sealed = buffer::buffered(*final(out)).skip(nonce_start as int);
                seals(
                    self.opened(sealed),
                    sealed,
                    buffer::buffered(*old(out)).skip(ct_start as int),
                )
            },
    {
        let plain: BytesMut = buffer::buf_split_off(out, ct_start);
        buffer::buf_truncate(out, nonce_start);
        proof {
            let start = buffer::buffered(*old(out));
            assert(buffer::buffered(*out) =~= start.take(nonce_start as int));
        }
        self.encrypt_into(buffer::buf_slice(&plain), out)
    }
}

} // verus!
