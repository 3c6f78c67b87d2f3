//! The ingress gate: producer identity, basic authentication, and accepting an
//! event into the debounce table.
use vstd::prelude::*;
use vstd::utf8::{decode_utf8, valid_utf8};
use base64::Engine;
use crate::debounce::{arm_result, armed, enqueued, DebounceTable, DEBOUNCE_WINDOW_MS, EntryState};
use crate::sonarr::{is_accepted, is_accepted_kind, normalise, normalised, normalised_type, SonarrRequestBody};

verus! {

/// Why an inbound request was turned away.
#[derive(PartialEq, Eq, Structural, Clone, Copy, Debug)]
pub enum IngressError {
    /// The body is not a well-formed event (400).
    MalformedEvent,
    /// The event's normalised kind is not `Grab`, `Download` or `Upgrade` (400).
    UnsupportedEvent,
    /// The User-Agent is missing or does not name the producer (400).
    BadUserAgent,
    /// Credentials are required and no Authorization header was sent (401).
    AuthMissing,
    /// The Authorization header is not `Basic` with base64 of UTF-8 text (400).
    AuthBadFormat,
    /// The credentials do not match (401).
    AuthMismatch,
    /// The path's generation counter cannot grow, so no expiry task can be armed.
    GenerationExhausted,
}

impl IngressError {
    /// The HTTP status the rejection is answered with.
    pub fn status(&self) -> (r: u16)
        ensures
            r == match self {
                IngressError::AuthMissing | IngressError::AuthMismatch => 401u16,
                IngressError::GenerationExhausted => 503u16,
                _ => 400u16,
            },
    {
        match self {
            IngressError::AuthMissing | IngressError::AuthMismatch => 401,
            IngressError::GenerationExhausted => 503,
            _ => 400,
        }
    }
}

/// Whether `s` begins with `prefix`.
pub open spec fn starts_with(s: Seq<char>, prefix: Seq<char>) -> bool {
    s.len() >= prefix.len() && s.subrange(0, prefix.len() as int) == prefix
}

fn has_prefix(s: &str, prefix: &str) -> (r: bool)
    ensures
        r == starts_with(s@, prefix@),
{
    let n = s.unicode_len();
    let k = prefix.unicode_len();
    if n < k {
        return false;
    }
    let head = s.substring_char(0, k).to_owned();
    head == prefix.to_owned()
}

/// The User-Agent prefix of the producer.
pub open spec fn producer_prefix() -> Seq<char> {
    "Sonarr/"@
}

/// Accepts only requests whose User-Agent begins with `Sonarr/`.
pub fn check_user_agent(agent: Option<&str>) -> (r: Result<(), IngressError>)
    ensures
        r == match agent {
            Some(a) => if starts_with(a@, producer_prefix()) {
                Ok(())
            } else {
                Err(IngressError::BadUserAgent)
            },
            None => Err(IngressError::BadUserAgent),
        },
{
    match agent {
        Some(a) => if has_prefix(a, "Sonarr/") {
            Ok(())
        } else {
            Err(IngressError::BadUserAgent)
        },
        None => Err(IngressError::BadUserAgent),
    }
}

/// The Authorization header as the request carried it.
pub enum AuthorizationHeader {
    /// No such header.
    Missing,
    /// Present, but not visible ASCII text.
    Unreadable,
    /// Present, with this text.
    Text(String),
}

/// What the standard base64 engine decodes the text to, or `None` when it rejects it.
pub uninterp spec fn base64_decoded(s: Seq<char>) -> Option<Seq<u8>>;

/// Relies on base64's `STANDARD` engine `decode`: its outcome depends on the input text alone.
#[verifier::external_body]
fn decode_base64(text: &str) -> (r: Option<Vec<u8>>)
    ensures
        r is Some <==> base64_decoded(text@) is Some,
        r matches Some(v) ==> base64_decoded(text@) == Some(v@),
{
    base64::engine::general_purpose::STANDARD.decode(text).ok()
}

/// Relies on `String::from_utf8`: it succeeds exactly on valid UTF-8, which it decodes.
#[verifier::external_body]
fn text_from_utf8(bytes: Vec<u8>) -> (r: Option<String>)
    ensures
        r is Some <==> valid_utf8(bytes@),
        r matches Some(t) ==> t@ == decode_utf8(bytes@),
{
    String::from_utf8(bytes).ok()
}

/// Whether `i` is the position of the first `:` in `s`.
pub open spec fn is_first_colon(s: Seq<char>, i: int) -> bool {
    0 <= i < s.len() && s[i] == ':' && forall|j: int| 0 <= j < i ==> s[j] != ':'
}

/// Whether `user:pass` text names these credentials: the text before the first
/// `:` is the user and the rest the password; without a `:` the whole text is
/// the user and the password is empty.
pub open spec fn credentials_match(text: Seq<char>, user: Seq<char>, pass: Seq<char>) -> bool {
    if exists|i: int| is_first_colon(text, i) {
        let i = choose|i: int| is_first_colon(text, i);
        text.take(i) == user && text.skip(i + 1) == pass
    } else {
        text == user && pass.len() == 0
    }
}

/// The outcome of checking decoded credentials against the configured ones.
pub open spec fn decoded_auth_result(
    decoded: Option<Seq<u8>>,
    user: Seq<char>,
    pass: Seq<char>,
) -> Result<(), IngressError> {
    match decoded {
        None => Err(IngressError::AuthBadFormat),
        Some(b) => if !valid_utf8(b) {
            Err(IngressError::AuthBadFormat)
        } else if credentials_match(decode_utf8(b), user, pass) {
            Ok(())
        } else {
            Err(IngressError::AuthMismatch)
        },
    }
}

/// The prefix of basic credentials in an Authorization header.
pub open spec fn basic_prefix() -> Seq<char> {
    "Basic "@
}

/// The outcome of checking an Authorization header against the configured credentials.
pub open spec fn auth_result(header: AuthorizationHeader, user: Seq<char>, pass: Seq<char>) -> Result<
    (),
    IngressError,
> {
    match header {
        AuthorizationHeader::Missing => Err(IngressError::AuthMissing),
        AuthorizationHeader::Unreadable => Err(IngressError::AuthBadFormat),
        AuthorizationHeader::Text(t) => if !starts_with(t@, basic_prefix()) {
            Err(IngressError::AuthBadFormat)
        } else {
            decoded_auth_result(base64_decoded(t@.skip(basic_prefix().len() as int)), user, pass)
        },
    }
}

/// Checks decoded basic credentials (`None` when the base64 did not decode)
/// against the configured user and password.
pub fn check_decoded_credentials(decoded: Option<Vec<u8>>, user: &str, pass: &str) -> (r: Result<
    (),
    IngressError,
>)
    ensures
        r == decoded_auth_result(
            match decoded {
                Some(v) => Some(v@),
                None => None,
            },
            user@,
            pass@,
        ),
{
    let bytes = match decoded {
        Some(v) => v,
        None => return Err(IngressError::AuthBadFormat),
    };
    let ghost b = bytes@;
    let text = match text_from_utf8(bytes) {
        Some(t) => t,
        None => return Err(IngressError::AuthBadFormat),
    };
    let n = text.as_str().unicode_len();
    let mut i: usize = 0;
    while i < n && text.as_str().get_char(i) != ':'
        invariant
            i <= n == text@.len(),
            forall|j: int| 0 <= j < i ==> text@[j] != ':',
        decreases n - i,
    {
        i = i + 1;
    }
    let (u, p) = if i < n {
        assert(is_first_colon(text@, i as int));
        proof {
            let c = choose|c: int| is_first_colon(text@, c);
            assert(c == i) by {
                if c < i {
                    assert(text@[c] != ':');
                } else if c > i {
                    assert(text@[i as int] != ':');
                }
            }
        }
        let u = text.as_str().substring_char(0, i).to_owned();
        let p = text.as_str().substring_char(i + 1, n).to_owned();
        assert(u@ =~= text@.take(i as int));
        assert(p@ =~= text@.skip(i + 1));
        (u, p)
    } else {
        assert(!exists|c: int| is_first_colon(text@, c));
        assert(pass@.len() == 0 ==> pass@ =~= Seq::<char>::empty());
        (text.clone(), String::new())
    };
    if u == user.to_owned() && p == pass.to_owned() {
        Ok(())
    } else {
        Err(IngressError::AuthMismatch)
    }
}

/// Checks an Authorization header against the configured credentials: it must
/// be present, read `Basic ` followed by base64 of UTF-8 `user:pass` text, and
/// name exactly these credentials.
pub fn check_auth(user: &str, pass: &str, header: AuthorizationHeader) -> (r: Result<
    (),
    IngressError,
>)
    ensures
        r == auth_result(header, user@, pass@),
{
    match header {
        AuthorizationHeader::Missing => Err(IngressError::AuthMissing),
        AuthorizationHeader::Unreadable => Err(IngressError::AuthBadFormat),
        AuthorizationHeader::Text(t) => {
            if !has_prefix(t.as_str(), "Basic ") {
                return Err(IngressError::AuthBadFormat);
            }
            proof {
                reveal_strlit("Basic ");
            }
            let n = t.as_str().unicode_len();
            let encoded = t.as_str().substring_char(6, n);
            assert(encoded@ =~= t@.skip(basic_prefix().len() as int));
            let decoded = decode_base64(encoded);
            check_decoded_credentials(decoded, user, pass)
        },
    }
}

/// What accepting an event hands the caller: the generation and deadline of
/// the expiry task to spawn.
#[derive(PartialEq, Eq, Structural, Clone, Copy, Debug)]
pub struct Armed {
    pub generation: u64,
    pub deadline: u64,
}

/// Whether the ingress gate admits an event: its normalised kind is `Grab`,
/// `Download` or `Upgrade`.
pub open spec fn admitted(e: crate::sonarr::SonarrEventView) -> bool {
    normalised_type(e.event_type, e.is_upgrade) matches Some(k) && is_accepted_kind(k)
}

/// Accepts an event for `path` at instant `now`, in milliseconds of a monotonic
/// clock. An event without a kind is malformed and a kind other than `Grab`,
/// `Download` or `Upgrade` is unsupported; either changes nothing. An admitted
/// event is normalised and enqueued, the path's deadline moves to `now + DEBOUNCE_WINDOW_MS`, and a new
/// expiry task is armed; the result holds that task's generation and deadline.
pub fn accept_event(
    table: &mut DebounceTable,
    path: &str,
    event: SonarrRequestBody,
    now: u64,
) -> (r: Result<Armed, IngressError>)
    requires
        old(table).wf(),
        now <= u64::MAX - DEBOUNCE_WINDOW_MS,
    ensures
        final(table).wf(),
        event@.event_type is None ==> r == Err::<Armed, IngressError>(
            IngressError::MalformedEvent,
        ) && final(table)@ == old(table)@,
        event@.event_type is Some && !admitted(event@) ==> r == Err::<Armed, IngressError>(
            IngressError::UnsupportedEvent,
        ) && final(table)@ == old(table)@,
        admitted(event@) ==> {
            let m = enqueued(
                old(table)@,
                path@,
                normalised(event@),
                (now + DEBOUNCE_WINDOW_MS) as u64,
            );
            &&& final(table)@ == armed(m, path@)
            &&& r == match arm_result(m, path@) {
                Some((g, d)) => Ok(Armed { generation: g, deadline: d }),
                None => Err(IngressError::GenerationExhausted),
            }
        },
{
    if event.event_type.is_none() {
        return Err(IngressError::MalformedEvent);
    }
    if !is_accepted(&event) {
        return Err(IngressError::UnsupportedEvent);
    }
    let event = normalise(event);
    table.enqueue(path, event, now);
    match table.arm(path) {
        Some((generation, deadline)) => Ok(Armed { generation, deadline }),
        None => Err(IngressError::GenerationExhausted),
    }
}

} // verus!
