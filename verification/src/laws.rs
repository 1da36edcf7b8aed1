//! What holds of answers, of the log and of the clock.
use crate::clock::{now_secs, Clock};
use crate::decimal;
use crate::decimal::push_decimal;
use crate::error::{HttpProxyError, ServerError};
use crate::log::{plan_log_files, LogConfig, LogFiles};
use crate::server::handlers;
use crate::server::handlers::{extract_bearer, gen_token, validate_jwt_if_needed};
use crate::shaper::base122;
use crate::shaper::base122::has_plain_leads;
use vstd::prelude::*;
use vstd::string::*;

verus! {

/// Every answer has its status: faults of the client from 400 on, faults of the server or
/// its target from 500 on, each its own. The words are those that were given.
pub proof fn law_answers_have_their_status(
    msg: &str,
    bad_request: ServerError,
    unauthorized: ServerError,
    not_found: ServerError,
    too_large: ServerError,
    precondition: ServerError,
    internal: ServerError,
    bad_gateway: ServerError,
    unavailable: ServerError,
    timeout: ServerError,
)
    requires
        call_ensures(ServerError::bad_request, (msg,), bad_request),
        call_ensures(ServerError::unauthorized, (msg,), unauthorized),
        call_ensures(ServerError::not_found, (msg,), not_found),
        call_ensures(ServerError::payload_too_large, (msg,), too_large),
        call_ensures(ServerError::precondition_required, (msg,), precondition),
        call_ensures(ServerError::internal, (msg,), internal),
        call_ensures(ServerError::bad_gateway, (msg,), bad_gateway),
        call_ensures(ServerError::service_unavailable, (msg,), unavailable),
        call_ensures(ServerError::gateway_timeout, (msg,), timeout),
    ensures
        bad_request.0 == 400 && bad_request.1@ == msg@,
        unauthorized.0 == 401 && unauthorized.1@ == msg@,
        not_found.0 == 404 && not_found.1@ == msg@,
        too_large.0 == 413 && too_large.1@ == msg@,
        precondition.0 == 428 && precondition.1@ == msg@,
        internal.0 == 500 && internal.1@ == msg@,
        bad_gateway.0 == 502 && bad_gateway.1@ == msg@,
        unavailable.0 == 503 && unavailable.1@ == msg@,
        timeout.0 == 504 && timeout.1@ == msg@,
{
}

/// The words of an error end with its cause, and an error of another component is handed
/// on in that component's words. Only such an error has a source.
pub proof fn law_errors_keep_their_cause(
    cause: String,
    e: HttpProxyError,
    words: String,
    source: Option<&String>,
)
    requires
        e == HttpProxyError::Anyhow(cause) || e == HttpProxyError::Io(cause) || e
            == HttpProxyError::Protocol(cause) || e == HttpProxyError::Config(cause) || e
            == HttpProxyError::Auth(cause) || e == HttpProxyError::Dns(cause) || e
            == HttpProxyError::Timeout(cause) || e == HttpProxyError::NotFound(cause) || e
            == HttpProxyError::Precondition(cause) || e == HttpProxyError::PayloadTooLarge(cause),
        call_ensures(HttpProxyError::message, (&e,), words),
        call_ensures(HttpProxyError::source, (&e,), source),
    ensures
        cause@.len() <= words@.len(),
        words@.skip(words@.len() - cause@.len()) == cause@,
        e is Anyhow ==> words@ == cause@,
        e is Io ==> words@ == "I/O error: "@ + cause@,
        e is Protocol ==> words@ == "protocol error: "@ + cause@,
        e is Config ==> words@ == "config error: "@ + cause@,
        e is Auth ==> words@ == "auth error: "@ + cause@,
        e is Dns ==> words@ == "dns error: "@ + cause@,
        e is Timeout ==> words@ == "timeout: "@ + cause@,
        e is NotFound ==> words@ == "not found: "@ + cause@,
        e is Precondition ==> words@ == "precondition: "@ + cause@,
        e is PayloadTooLarge ==> words@ == "payload too large: "@ + cause@,
        source is Some <==> e is Anyhow || e is Io,
        source is Some ==> *source->0 == cause,
{
    assert(words@.skip(words@.len() - cause@.len()) =~= cause@);
}

/// An error that was answered to a peer is one of the protocol, in the words of the
/// answer.
pub proof fn law_answers_become_errors(e: ServerError, r: HttpProxyError)
    requires
        call_ensures(HttpProxyError::from_server_error, (e,), r),
    ensures
        r is Protocol,
        r->Protocol_0 == e.1,
{
}

/// Log files go where the path says; without a directory here, and without a name or an
/// extension under the program's own.
pub proof fn law_log_files_have_a_place(
    parent: Option<String>,
    stem: Option<String>,
    extension: Option<String>,
    r: LogFiles,
)
    requires
        call_ensures(plan_log_files, (parent, stem, extension), r),
    ensures
        parent is Some && parent->0@.len() > 0 ==> r.directory@ == parent->0@,
        parent is None || parent->0@.len() == 0 ==> r.directory@ == seq!['.'],
        stem is Some ==> r.prefix@ == stem->0@,
        stem is None ==> r.prefix@ == "httproxy"@,
        extension is Some ==> r.suffix@ == extension->0@,
        extension is None ==> r.suffix@ == seq!['l', 'o', 'g'],
{
    reveal_strlit(".");
    reveal_strlit("log");
    assert("."@ =~= seq!['.']);
    assert("log"@ =~= seq!['l', 'o', 'g']);
}

/// What is not set is: no log file, seven backups, and the level of news.
pub proof fn law_default_log(r: LogConfig)
    requires
        call_ensures(LogConfig::default, (), r),
    ensures
        r.file_path is None,
        r.max_backups == 7,
        r.level@ == seq!['i', 'n', 'f', 'o'],
{
    reveal_strlit("info");
    assert("info"@ =~= seq!['i', 'n', 'f', 'o']);
}

/// A clock that is read twice does not run back.
pub proof fn law_clock_runs_on(first: &mut Clock, second: &mut Clock, a: u64, b: u64)
    requires
        call_ensures(now_secs, (first,), a),
        *old(second) == *final(first),
        call_ensures(now_secs, (second,), b),
    ensures
        a <= b,
{
}

/// A number that was written behind a text is its decimal notation: one digit for a
/// number below ten, and else that of its tenth and one digit more.
pub proof fn law_numbers_are_written_in_digits(out: &mut String, n: u64)
    requires
        call_ensures(push_decimal, (out, n), ()),
    ensures
        final(out)@.len() > old(out)@.len(),
        final(out)@.take(old(out)@.len() as int) == old(out)@,
        final(out)@.last() as int == 0x30 + n % 10,
        n < 10 ==> final(out)@.len() == old(out)@.len() + 1,
        n >= 10 ==> final(out)@.drop_last() == old(out)@ + decimal::decimal((n / 10) as nat),
{
    let front = old(out)@;
    let digits = decimal::decimal(n as nat);
    decimal::law_decimal_roundtrip(n as nat);
    assert(final(out)@ == front + digits);
    assert(final(out)@.take(front.len() as int) =~= front);
    if n >= 10 {
        assert(final(out)@.drop_last() =~= front + decimal::decimal((n / 10) as nat));
    }
}

/// Text is plain where neither of the two leads that stand for nothing is in it.
pub proof fn law_spare_leads_are_found(b: &[u8], r: bool)
    requires
        call_ensures(has_plain_leads, (b,), r),
    ensures
        r <==> forall|i: int| 0 <= i < b@.len() ==> #[trigger] b@[i] != 0xda && b@[i] != 0xdb,
{
    reveal(base122::plain_leads);
}

/// A request without a token is answered 401, and so is one whose token is not good; one
/// that passes is its subject's.
pub proof fn law_tokens_name_their_subject(
    header: Option<&str>,
    secret: &[u8],
    token: Option<String>,
    r: Result<String, ServerError>,
)
    requires
        call_ensures(extract_bearer, (header,), token),
        call_ensures(validate_jwt_if_needed, (header, secret), r),
    ensures
        r is Err ==> r->Err_0.0 == 401,
        token is None ==> r is Err,
        r is Ok ==> token is Some && (handlers::signed_claims(token->0@, secret@) matches Some(
            (Some(sub), Some(exp)),
        ) && sub == r->Ok_0@),
{
}

/// A token that was issued passes, if it does, for the user that it was issued to.
pub proof fn law_issued_tokens_pass_for_user(
    secret: &str,
    user: &str,
    exp: u64,
    token: String,
    header: &str,
    key: &[u8],
    r: Result<String, ServerError>,
)
    requires
        call_ensures(gen_token, (secret, user, exp), Some(token)),
        header@ == "Bearer "@ + token@,
        key@ == secret.spec_bytes(),
        call_ensures(validate_jwt_if_needed, (Some(header), key), r),
    ensures
        r is Ok ==> r->Ok_0@ == user@,
        r is Err ==> r->Err_0.0 == 401,
{
    reveal_strlit("Bearer ");
    assert("Bearer "@.is_prefix_of(header@));
    assert(header@.skip(7) =~= token@);
}

} // verus!
