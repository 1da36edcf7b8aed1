//! Cookies, first frames and answers of the client's requests.
use crate::buffer;
use crate::chars;
use crate::client::constants::MIN_PADDING;
use crate::server::utils;
use crate::shaper::config;
use crate::shaper::frame;
use crate::shaper::frame::{MAX_BINARY_FRAME_LEN, MAX_RAW_PAYLOAD};
use crate::shaper::laws;
use crate::shaper::{FrameCipher, FrameError, TrafficConfig};
use crate::text;
use bytes::Bytes;
use vstd::prelude::*;
use vstd::slice::{slice_subrange, slice_to_vec};
use vstd::string::*;
use vstd::utf8::*;

verus! {

/// What the padding of a cookie is cut from.
pub open spec fn cookie_padding() -> Seq<char> {
    "padding=XXXXXXXXXXXXXXXXXXXXXXXXXX"@
}

/// How many characters there are to cut from.
pub const COOKIE_PADDING_LEN: usize = 34;

/// A cookie with its padding behind.
pub open spec fn padded_cookie(name: Seq<char>, value: Seq<char>, pad: nat) -> Seq<char> {
    name + "="@ + value + "; "@ + cookie_padding().take(pad as int)
}

/// Writes a cookie with `pad` characters of padding behind.
pub fn write_cookie(name: &str, value: &str, pad: usize) -> (r: String)
    requires
        pad <= COOKIE_PADDING_LEN,
    ensures
        r@ == padded_cookie(name@, value@, pad as nat),
{
    let mut out = String::from_str(name);
    out.append("=");
    out.append(value);
    out.append("; ");
    let pool: Vec<char> = chars::chars_of("padding=XXXXXXXXXXXXXXXXXXXXXXXXXX");
    proof {
        reveal_strlit("padding=XXXXXXXXXXXXXXXXXXXXXXXXXX");
    }
    let part = slice_subrange(&pool, 0, pad);
    out.append(chars::string_from(part).as_str());
    proof {
        assert(part@ =~= cookie_padding().take(pad as int));
        assert(out@ =~= padded_cookie(name@, value@, pad as nat));
    }
    out
}

/// A cookie, with padding of some length behind.
pub open spec fn is_padded_cookie(cookie: Seq<char>, name: Seq<char>, value: Seq<char>) -> bool {
    exists|pad: nat|
        MIN_PADDING <= pad < COOKIE_PADDING_LEN && cookie == #[trigger] padded_cookie(
            name,
            value,
            pad,
        )
}

/// Writes a cookie with padding of a random length behind.
pub fn random_cookie(name: &str, value: &str) -> (r: String)
    ensures
        is_padded_cookie(r@, name@, value@),
{
    let pad: usize = frame::random_between(MIN_PADDING, COOKIE_PADDING_LEN - 1);
    let r: String = write_cookie(name, value, pad);
    proof {
        assert(r@ == padded_cookie(name@, value@, pad as nat));
    }
    r
}

/// Writes the cookie of a tunnel into `buf`, in place of what it held.
pub fn build_tunnel_cookie(buf: &mut String, session_val: &str)
    ensures
        is_padded_cookie(final(buf)@, "session"@, session_val@),
{
    *buf = random_cookie("session", session_val);
}

/// A server reads from a padded cookie what the client wrote into it.
pub proof fn law_cookie_is_read(name: Seq<char>, value: Seq<char>, pad: nat)
    requires
        name.len() > 0,
        name[0] != ' ',
        name[0] != ';',
        forall|i: int|
            0 <= i < value.len() ==> #[trigger] value[i] != ';' && !chars::is_white(value[i]),
        pad <= COOKIE_PADDING_LEN,
    ensures
        utils::cookie_value(padded_cookie(name, value, pad), name) == Some(value),
{
    reveal_strlit("=");
    reveal_strlit("; ");
    let c = padded_cookie(name, value, pad);
    assert(utils::skip_separators(c) == c);
    assert(name.push('=') =~= c.take(name.len() as int + 1));
    let rest = c.skip(name.len() as int + 1);
    let n = value.len() as int;
    assert forall|j: int| 0 <= j < n implies rest[j] != ';' by {
        assert(rest[j] == value[j]);
    }
    chars::lemma_first_index(rest, ';', n);
    assert(rest.take(n) =~= value);
    chars::lemma_nothing_to_trim(value);
}

/// `s` cut into pieces of `MAX_RAW_PAYLOAD` bytes, the last one shorter.
pub open spec fn pieces(s: Seq<u8>) -> Seq<Seq<u8>> {
    Seq::new(
        ((s.len() + MAX_RAW_PAYLOAD - 1) / MAX_RAW_PAYLOAD as int) as nat,
        |i: int|
            s.subrange(
                i * MAX_RAW_PAYLOAD,
                if (i + 1) * MAX_RAW_PAYLOAD <= s.len() {
                    (i + 1) * MAX_RAW_PAYLOAD
                } else {
                    s.len() as int
                },
            ),
    )
}

/// The pieces, one behind the other, are the whole.
pub proof fn law_pieces_join(s: Seq<u8>)
    ensures
        pieces(s).flatten() == s,
    decreases s.len(),
{
    let n = MAX_RAW_PAYLOAD as int;
    if s.len() == 0 {
        assert(pieces(s) =~= Seq::empty());
    } else {
        let k = if s.len() < n {
            s.len() as int
        } else {
            n
        };
        let rest = s.skip(k);
        law_pieces_join(rest);
        assert(pieces(s).first() =~= s.take(k));
        assert(pieces(s).drop_first() =~= pieces(rest)) by {
            assert forall|i: int| 0 <= i < pieces(rest).len() implies pieces(s).drop_first()[i]
                == #[trigger] pieces(rest)[i] by {
                assert(pieces(s).drop_first()[i] =~= pieces(rest)[i]);
            }
        }
        assert(s.take(k) + rest =~= s);
    }
}

/// The first `max` bytes of `s`.
pub open spec fn head(s: Seq<u8>, max: nat) -> Seq<u8> {
    if s.len() <= max {
        s
    } else {
        s.take(max as int)
    }
}

/// Frames the first bytes of a connection, at most `max_bytes` of them. Gives
/// the frames, the bytes left, and the number of the next frame.
#[verifier::rlimit(60)]
#[verifier::spinoff_prover]
pub fn encode_initial_payload<C: FrameCipher + ?Sized>(
    initial_payload: &[u8],
    max_bytes: usize,
    cipher: Option<&C>,
    config: &TrafficConfig,
) -> (r: Result<(Vec<u8>, Bytes, u64), FrameError>)
    requires
        config::is_ordered(config.global.padding_range),
    ensures
        ({
            let sent = head(initial_payload@, max_bytes as nat);
            let limit = frame::raw_limit(cipher is Some, config.encoding_type);
            let first = head(sent, MAX_RAW_PAYLOAD as nat).len();
            &&& first > limit ==> r == Err::<(Vec<u8>, Bytes, u64), FrameError>(
                FrameError::PayloadTooLarge { len: first as usize, limit },
            )
            &&& first <= limit && (forall|n: nat|
                n <= MAX_BINARY_FRAME_LEN ==> #[trigger] frame::can_seal(cipher, n)) ==> r is Ok
            &&& r matches Ok((body, left, next)) ==> {
                &&& laws::is_padded_stream(
                    body@,
                    config.encoding_type,
                    cipher,
                    0,
                    pieces(sent),
                    config.global,
                )
                &&& buffer::frozen(left) == initial_payload@.skip(sent.len() as int)
                &&& next == pieces(sent).len()
            }
        }),
{
    let take_len: usize = if initial_payload.len() < max_bytes {
        initial_payload.len()
    } else {
        max_bytes
    };
    let sent = slice_subrange(initial_payload, 0, take_len);
    let left = slice_subrange(initial_payload, take_len, initial_payload.len());
    proof {
        assert(sent@ =~= head(initial_payload@, max_bytes as nat));
        assert(left@ =~= initial_payload@.skip(sent@.len() as int));
    }
    let mut body: Vec<u8> = Vec::new();
    let mut offset: usize = 0;
    let mut seq: u64 = 0;
    let ghost all = pieces(sent@);
    proof {
        assert(all.take(0) =~= Seq::empty());
    }
    while offset < take_len
        invariant
            take_len == sent@.len(),
            sent@ == head(initial_payload@, max_bytes as nat),
            all == pieces(sent@),
            config::is_ordered(config.global.padding_range),
            seq <= all.len(),
            offset == (if seq * MAX_RAW_PAYLOAD <= sent@.len() {
                seq * MAX_RAW_PAYLOAD
            } else {
                sent@.len() as int
            }),
            seq > 0 ==> head(sent@, MAX_RAW_PAYLOAD as nat).len() <= frame::raw_limit(
                cipher is Some,
                config.encoding_type,
            ),
            laws::is_padded_stream(
                body@,
                config.encoding_type,
                cipher,
                0,
                all.take(seq as int),
                config.global,
            ),
        decreases take_len - offset,
    {
        let left_over: usize = take_len - offset;
        let size: usize = if left_over < MAX_RAW_PAYLOAD {
            left_over
        } else {
            MAX_RAW_PAYLOAD
        };
        let chunk = slice_subrange(sent, offset, offset + size);
        proof {
            assert(seq < all.len());
            assert(chunk@ =~= all[seq as int]);
        }
        match frame::encode_frame_with(
            chunk,
            seq,
            cipher,
            config.global.padding_threshold,
            config.global.padding_range,
            config.encoding_type,
        ) {
            Err(e) => {
                return Err(e);
            },
            Ok(frame_bytes) => {
                proof {
                    let wanted = choose|wanted: nat|
                        (chunk@.len() < config.global.padding_threshold
                            ==> config.global.padding_range[0] <= wanted
                            <= config.global.padding_range[1]) && #[trigger] frame::is_frame(
                            frame_bytes@,
                            config.encoding_type,
                            cipher,
                            seq,
                            chunk@,
                            frame::padding_for(
                                chunk@.len(),
                                frame::raw_limit(cipher is Some, config.encoding_type) as nat,
                                config.global.padding_threshold as nat,
                                wanted,
                            ),
                        );
                    laws::law_padded_stream_append(
                        body@,
                        config.encoding_type,
                        cipher,
                        0,
                        all.take(seq as int),
                        config.global,
                        frame_bytes@,
                        chunk@,
                        frame::padding_for(
                            chunk@.len(),
                            frame::raw_limit(cipher is Some, config.encoding_type) as nat,
                            config.global.padding_threshold as nat,
                            wanted,
                        ),
                    );
                    assert(all.take(seq as int).push(chunk@) =~= all.take(seq as int + 1));
                }
                let ghost before = body@;
                body.extend_from_slice(frame_bytes.as_slice());
                proof {
                    assert(body@ =~= before + frame_bytes@);
                }
            },
        }
        offset = offset + size;
        seq = seq + 1;
    }
    proof {
        assert(seq == all.len());
        assert(all.take(seq as int) =~= all);
    }
    Ok((body, buffer::bytes_from_vec(slice_to_vec(left)), seq))
}

/// The number of a status and the words that go with it.
pub uninterp spec fn status_text(status: u16) -> Seq<char>;

/// `http::StatusCode::from_u16` and its `Display`. Numbers outside these
/// bounds are no status.
#[verifier::external_body]
fn status_words(status: u16) -> (r: String)
    requires
        100 <= status <= 999,
    ensures
        r@ == status_text(status),
{
    http::StatusCode::from_u16(status).map(|s| s.to_string()).unwrap_or_default()
}

/// Refuses an answer whose status is no success; the refusal says in what
/// context it came.
pub fn check_response_status(status: u16, context: &str) -> (r: Result<(), String>)
    requires
        100 <= status <= 999,
    ensures
        if 200 <= status <= 299 {
            r is Ok
        } else {
            r matches Err(e) && e@ == context@ + ": "@ + status_text(status)
        },
{
    if 200 <= status && status <= 299 {
        return Ok(());
    }
    let mut out = String::from_str(context);
    out.append(": ");
    out.append(status_words(status).as_str());
    Err(out)
}

/// How the task of an upload ended.
#[derive(Debug)]
pub enum UploadEnd {
    /// Everything was uploaded.
    Finished,
    /// The upload failed.
    Failed(String),
    /// The task was cancelled.
    Cancelled,
    /// The task died.
    Panicked(String),
}

/// Whether the download goes on when the upload has ended, or why it is broken off.
pub fn on_upload_end(end: UploadEnd) -> (r: Result<(), String>)
    ensures
        match end {
            UploadEnd::Finished | UploadEnd::Cancelled => r is Ok,
            UploadEnd::Failed(reason) => r == Err::<(), String>(reason),
            UploadEnd::Panicked(reason) => r matches Err(e) && e@ == "upload task panicked: "@
                + reason@,
        },
{
    match end {
        UploadEnd::Finished => Ok(()),
        UploadEnd::Cancelled => Ok(()),
        UploadEnd::Failed(reason) => Err(reason),
        UploadEnd::Panicked(reason) => {
            let mut out = String::from_str("upload task panicked: ");
            out.append(reason.as_str());
            Err(out)
        },
    }
}

/// What the end of a download means for the connection; a label takes the
/// place of the reason.
pub fn on_download_end(result: Result<(), String>, label: Option<&str>) -> (r: Result<(), String>)
    ensures
        match result {
            Ok(_) => r is Ok,
            Err(reason) => match label {
                Some(l) => r matches Err(e) && e@ == l@,
                None => r == Err::<(), String>(reason),
            },
        },
{
    match result {
        Ok(_) => Ok(()),
        Err(reason) => match label {
            Some(l) => Err(String::from_str(l)),
            None => Err(reason),
        },
    }
}

/// The kinds of I/O errors that are told apart.
#[derive(Debug, Clone, Copy, PartialEq, Eq, Structural)]
pub enum IoKind {
    ConnectionReset,
    UnexpectedEof,
    NotConnected,
    BrokenPipe,
    Other,
}

/// What lies at the bottom of a failed connection.
#[derive(Debug)]
pub enum RootCause {
    /// An HTTP/2 error.
    H2 { reset: bool, library: bool },
    /// An I/O error.
    Io(IoKind),
    /// Anything else, in words.
    Other(String),
}

/// The words of a connection that ended before its request.
pub open spec fn closed_early() -> Seq<char> {
    "connection closed during header parsing"@
}

/// Whether a failure is not worth a warning: the peer went away.
pub fn is_silent_error(root: &RootCause) -> (r: bool)
    ensures
        r == (match root {
            RootCause::H2 { reset, library } => *reset || *library,
            RootCause::Io(kind) => !(*kind is Other),
            RootCause::Other(words) => text::first_occurrence(
                encode_utf8(words@),
                encode_utf8(closed_early()),
            ) is Some,
        }),
{
    match root {
        RootCause::H2 { reset, library } => *reset || *library,
        RootCause::Io(kind) => match kind {
            IoKind::Other => false,
            _ => true,
        },
        RootCause::Other(words) => {
            let needle: &str = "connection closed during header parsing";
            text::find_bytes(words.as_str().as_bytes(), needle.as_bytes()).is_some()
        },
    }
}

} // verus!
