//! Wire codec: renders outbound commands to the gateway's JSON envelope and
//! parses inbound frames into an envelope of recognized fields, which are then
//! classified as a solicited reply (success, error, ack) or an unsolicited
//! event.
//!
//! The parser reads one top-level JSON object. Recognized keys are parsed
//! typed (strings, unsigned integers, raw object spans); values under other
//! keys are skipped lexically. Nested payloads (`data`, `plugindata`, `body`,
//! `error`) are captured as verbatim byte spans and can be fed back through
//! the same parser.

use vstd::prelude::*;
use crate::plain;

verus! {

// ---------------------------------------------------------------------------
// Byte classes
// ---------------------------------------------------------------------------

/// JSON insignificant whitespace.
pub open spec fn is_ws_byte(b: u8) -> bool {
    b == 0x20 || b == 0x09 || b == 0x0a || b == 0x0d
}

/// An ASCII decimal digit.
pub open spec fn is_digit(b: u8) -> bool {
    0x30 <= b <= 0x39
}

/// A byte that may appear in an unquoted primitive token: digits, letters,
/// sign, decimal point (numbers, `true`, `false`, `null`).
pub open spec fn is_prim_byte(b: u8) -> bool {
    is_digit(b) || (0x61 <= b <= 0x7a) || (0x41 <= b <= 0x5a) || b == 0x2d || b == 0x2b || b
        == 0x2e
}

// ---------------------------------------------------------------------------
// Spec-level parsing, written suffix to suffix: each function consumes a
// prefix of its input and hands back the rest.
// ---------------------------------------------------------------------------

/// Drops leading whitespace.
pub open spec fn trim(s: Seq<u8>) -> Seq<u8>
    decreases s.len(),
{
    if s.len() > 0 && is_ws_byte(s[0]) {
        trim(s.skip(1))
    } else {
        s
    }
}

/// Scans a string body after its opening quote: bytes up to the closing
/// quote, an escaping backslash taken together with the byte it guards.
/// Returns the content verbatim (escapes included) and the rest after the
/// closing quote.
pub open spec fn scan_string(s: Seq<u8>) -> Option<(Seq<u8>, Seq<u8>)>
    decreases s.len(),
{
    if s.len() == 0 {
        None
    } else if s[0] == 0x22 {
        Some((Seq::empty(), s.skip(1)))
    } else if s[0] == 0x5c {
        if s.len() < 2 {
            None
        } else {
            match scan_string(s.skip(2)) {
                Some((t, r)) => Some((seq![s[0], s[1]] + t, r)),
                None => None,
            }
        }
    } else {
        match scan_string(s.skip(1)) {
            Some((t, r)) => Some((seq![s[0]] + t, r)),
            None => None,
        }
    }
}

/// Parses a quoted string.
pub open spec fn parse_string(s: Seq<u8>) -> Option<(Seq<u8>, Seq<u8>)> {
    if s.len() > 0 && s[0] == 0x22 {
        scan_string(s.skip(1))
    } else {
        None
    }
}

/// Splits off the leading run of primitive-token bytes.
pub open spec fn scan_prim(s: Seq<u8>) -> (Seq<u8>, Seq<u8>)
    decreases s.len(),
{
    if s.len() > 0 && is_prim_byte(s[0]) {
        let (t, r) = scan_prim(s.skip(1));
        (seq![s[0]] + t, r)
    } else {
        (Seq::empty(), s)
    }
}

/// Every byte is a decimal digit.
pub open spec fn all_digits(s: Seq<u8>) -> bool {
    forall|i: int| 0 <= i < s.len() ==> is_digit(s[i])
}

/// The value of a digit string read in base ten.
pub open spec fn digits_val(s: Seq<u8>) -> nat
    decreases s.len(),
{
    if s.len() == 0 {
        0
    } else {
        digits_val(s.drop_last()) * 10 + (s.last() - 0x30) as nat
    }
}

// ---------------------------------------------------------------------------
// Lexical skipper for arbitrary nested values: walks bytes tracking brace and
// bracket depth and whether it stands inside a string, and stops when the
// depth first returns to zero outside a string. State: (depth, in a string,
// just after an escaping backslash).
// ---------------------------------------------------------------------------

/// One byte of the skipper's state machine.
pub open spec fn raw_step(st: (nat, bool, bool), b: u8) -> (nat, bool, bool) {
    if st.1 {
        if st.2 {
            (st.0, true, false)
        } else if b == 0x5c {
            (st.0, true, true)
        } else if b == 0x22 {
            (st.0, false, false)
        } else {
            (st.0, true, false)
        }
    } else {
        if b == 0x22 {
            (st.0, true, false)
        } else if b == 0x7b || b == 0x5b {
            ((st.0 + 1) as nat, false, false)
        } else if b == 0x7d || b == 0x5d {
            (if st.0 > 0 {
                (st.0 - 1) as nat
            } else {
                0
            }, false, false)
        } else {
            (st.0, false, false)
        }
    }
}

/// The skipper is done when the depth is zero outside a string.
pub open spec fn raw_done(st: (nat, bool, bool)) -> bool {
    st.0 == 0 && !st.1
}

/// How many bytes the skipper consumes before the value closes, if it does.
pub open spec fn skip_raw(s: Seq<u8>, st: (nat, bool, bool)) -> Option<nat>
    decreases s.len(),
{
    if s.len() == 0 {
        None
    } else {
        let st2 = raw_step(st, s[0]);
        if raw_done(st2) {
            Some(1)
        } else {
            match skip_raw(s.skip(1), st2) {
                Some(n) => Some((n + 1) as nat),
                None => None,
            }
        }
    }
}

// ---------------------------------------------------------------------------
// Generic values
// ---------------------------------------------------------------------------

/// A parsed top-level value at the specification level.
pub enum SpecVal {
    /// A quoted string, content verbatim.
    Text(Seq<u8>),
    /// An unsigned integer that fits in 64 bits.
    Num(u64),
    /// Any other value, as its raw byte span.
    Raw(Seq<u8>),
}

/// Parses one value: a string, a number, or a raw span for objects, arrays
/// and other primitives.
pub open spec fn parse_value(s: Seq<u8>) -> Option<(SpecVal, Seq<u8>)> {
    let t = trim(s);
    if t.len() == 0 {
        None
    } else if t[0] == 0x22 {
        match parse_string(t) {
            Some((v, r)) => Some((SpecVal::Text(v), r)),
            None => None,
        }
    } else if t[0] == 0x7b || t[0] == 0x5b {
        match skip_raw(t, (0, false, false)) {
            Some(n) => Some((SpecVal::Raw(t.take(n as int)), t.skip(n as int))),
            None => None,
        }
    } else {
        let (tok, r) = scan_prim(t);
        if tok.len() == 0 {
            None
        } else if all_digits(tok) && digits_val(tok) <= u64::MAX {
            Some((SpecVal::Num(digits_val(tok) as u64), r))
        } else {
            Some((SpecVal::Raw(tok), r))
        }
    }
}

// ---------------------------------------------------------------------------
// Consumption lemmas: every parser moves forward.
// ---------------------------------------------------------------------------

/// Trimming never lengthens the input.
pub proof fn lemma_trim_len(s: Seq<u8>)
    ensures
        trim(s).len() <= s.len(),
    decreases s.len(),
{
    if s.len() > 0 && is_ws_byte(s[0]) {
        lemma_trim_len(s.skip(1));
    }
}

/// A scanned string body consumes at least its closing quote.
pub proof fn lemma_scan_string_len(s: Seq<u8>)
    ensures
        scan_string(s) is Some ==> scan_string(s)->Some_0.1.len() < s.len(),
    decreases s.len(),
{
    if s.len() == 0 {
    } else if s[0] == 0x22 {
    } else if s[0] == 0x5c {
        if s.len() >= 2 {
            lemma_scan_string_len(s.skip(2));
        }
    } else {
        lemma_scan_string_len(s.skip(1));
    }
}

/// A parsed string consumes at least its two quotes.
pub proof fn lemma_parse_string_len(s: Seq<u8>)
    ensures
        parse_string(s) is Some ==> parse_string(s)->Some_0.1.len() + 2 <= s.len(),
{
    if s.len() > 0 && s[0] == 0x22 {
        lemma_scan_string_len(s.skip(1));
    }
}

/// A primitive scan splits its input exactly in two.
pub proof fn lemma_scan_prim(s: Seq<u8>)
    ensures
        s == scan_prim(s).0 + scan_prim(s).1,
        scan_prim(s).0.len() + scan_prim(s).1.len() == s.len(),
        forall|i: int| 0 <= i < scan_prim(s).0.len() ==> is_prim_byte(#[trigger] scan_prim(s).0[i]),
        scan_prim(s).1.len() > 0 ==> !is_prim_byte(scan_prim(s).1[0]),
    decreases s.len(),
{
    if s.len() > 0 && is_prim_byte(s[0]) {
        lemma_scan_prim(s.skip(1));
        assert(s =~= seq![s[0]] + s.skip(1));
        assert(seq![s[0]] + (scan_prim(s.skip(1)).0 + scan_prim(s.skip(1)).1) =~= (seq![s[0]]
            + scan_prim(s.skip(1)).0) + scan_prim(s.skip(1)).1);
    } else {
        assert(s =~= Seq::<u8>::empty() + s);
    }
}

/// The skipper consumes at least one byte and at most the whole input.
pub proof fn lemma_skip_raw_len(s: Seq<u8>, st: (nat, bool, bool))
    ensures
        skip_raw(s, st) is Some ==> 1 <= skip_raw(s, st)->Some_0 <= s.len(),
    decreases s.len(),
{
    if s.len() > 0 {
        lemma_skip_raw_len(s.skip(1), raw_step(st, s[0]));
    }
}

/// A parsed value consumes at least one byte.
pub proof fn lemma_parse_value_len(s: Seq<u8>)
    ensures
        parse_value(s) is Some ==> parse_value(s)->Some_0.1.len() < s.len(),
        parse_value(s) is Some ==> parse_value(s)->Some_0.1.len() < trim(s).len(),
{
    lemma_trim_len(s);
    let t = trim(s);
    if t.len() > 0 {
        if t[0] == 0x22 {
            lemma_parse_string_len(t);
        } else if t[0] == 0x7b || t[0] == 0x5b {
            lemma_skip_raw_len(t, (0, false, false));
        } else {
            lemma_scan_prim(t);
        }
    }
}


// ---------------------------------------------------------------------------
// Protocol words as byte strings
// ---------------------------------------------------------------------------

/// The bytes of `"janus"`.
pub open spec fn k_janus() -> Seq<u8> {
    seq![0x6a, 0x61, 0x6e, 0x75, 0x73]
}

/// The bytes of `"apisecret"`.
pub open spec fn k_apisecret() -> Seq<u8> {
    seq![0x61, 0x70, 0x69, 0x73, 0x65, 0x63, 0x72, 0x65, 0x74]
}

/// The bytes of `"plugin"`.
pub open spec fn k_plugin() -> Seq<u8> {
    seq![0x70, 0x6c, 0x75, 0x67, 0x69, 0x6e]
}

/// The bytes of `"transaction"`.
pub open spec fn k_transaction() -> Seq<u8> {
    seq![0x74, 0x72, 0x61, 0x6e, 0x73, 0x61, 0x63, 0x74, 0x69, 0x6f, 0x6e]
}

/// The bytes of `"session_id"`.
pub open spec fn k_session_id() -> Seq<u8> {
    seq![0x73, 0x65, 0x73, 0x73, 0x69, 0x6f, 0x6e, 0x5f, 0x69, 0x64]
}

/// The bytes of `"handle_id"`.
pub open spec fn k_handle_id() -> Seq<u8> {
    seq![0x68, 0x61, 0x6e, 0x64, 0x6c, 0x65, 0x5f, 0x69, 0x64]
}

/// The bytes of `"sender"`.
pub open spec fn k_sender() -> Seq<u8> {
    seq![0x73, 0x65, 0x6e, 0x64, 0x65, 0x72]
}

/// The bytes of `"body"`.
pub open spec fn k_body() -> Seq<u8> {
    seq![0x62, 0x6f, 0x64, 0x79]
}

/// The bytes of `"data"`.
pub open spec fn k_data() -> Seq<u8> {
    seq![0x64, 0x61, 0x74, 0x61]
}

/// The bytes of `"plugindata"`.
pub open spec fn k_plugindata() -> Seq<u8> {
    seq![0x70, 0x6c, 0x75, 0x67, 0x69, 0x6e, 0x64, 0x61, 0x74, 0x61]
}

/// The bytes of `"error"`.
pub open spec fn k_error() -> Seq<u8> {
    seq![0x65, 0x72, 0x72, 0x6f, 0x72]
}

/// The bytes of `"code"`.
pub open spec fn k_code() -> Seq<u8> {
    seq![0x63, 0x6f, 0x64, 0x65]
}

/// The bytes of `"reason"`.
pub open spec fn k_reason() -> Seq<u8> {
    seq![0x72, 0x65, 0x61, 0x73, 0x6f, 0x6e]
}

/// The bytes of `"id"`.
pub open spec fn k_id() -> Seq<u8> {
    seq![0x69, 0x64]
}

/// The bytes of `"success"`.
pub open spec fn k_success() -> Seq<u8> {
    seq![0x73, 0x75, 0x63, 0x63, 0x65, 0x73, 0x73]
}

/// The bytes of `"ack"`.
pub open spec fn k_ack() -> Seq<u8> {
    seq![0x61, 0x63, 0x6b]
}

/// The bytes of `"event"`.
pub open spec fn k_event() -> Seq<u8> {
    seq![0x65, 0x76, 0x65, 0x6e, 0x74]
}

/// The bytes of `"create"`.
pub open spec fn k_create() -> Seq<u8> {
    seq![0x63, 0x72, 0x65, 0x61, 0x74, 0x65]
}

/// The bytes of `"attach"`.
pub open spec fn k_attach() -> Seq<u8> {
    seq![0x61, 0x74, 0x74, 0x61, 0x63, 0x68]
}

/// The bytes of `"keepalive"`.
pub open spec fn k_keepalive() -> Seq<u8> {
    seq![0x6b, 0x65, 0x65, 0x70, 0x61, 0x6c, 0x69, 0x76, 0x65]
}

/// The bytes of `"message"`.
pub open spec fn k_message() -> Seq<u8> {
    seq![0x6d, 0x65, 0x73, 0x73, 0x61, 0x67, 0x65]
}

/// The bytes of `"request"`.
pub open spec fn k_request() -> Seq<u8> {
    seq![0x72, 0x65, 0x71, 0x75, 0x65, 0x73, 0x74]
}

/// The bytes of `"room"`.
pub open spec fn k_room() -> Seq<u8> {
    seq![0x72, 0x6f, 0x6f, 0x6d]
}

/// The bytes of `"admin_key"`.
pub open spec fn k_admin_key() -> Seq<u8> {
    seq![0x61, 0x64, 0x6d, 0x69, 0x6e, 0x5f, 0x6b, 0x65, 0x79]
}

/// The bytes of `"secret"`.
pub open spec fn k_secret() -> Seq<u8> {
    seq![0x73, 0x65, 0x63, 0x72, 0x65, 0x74]
}

/// The bytes of `"kick"`.
pub open spec fn k_kick() -> Seq<u8> {
    seq![0x6b, 0x69, 0x63, 0x6b]
}


// ---------------------------------------------------------------------------
// The envelope: the recognized fields of one frame
// ---------------------------------------------------------------------------

/// The recognized fields of one parsed frame, at the specification level.
pub struct SpecEnv {
    pub janus: Option<Seq<u8>>,
    pub transaction: Option<Seq<u8>>,
    pub session_id: Option<u64>,
    pub handle_id: Option<u64>,
    pub sender: Option<u64>,
    pub id: Option<u64>,
    pub code: Option<u64>,
    pub reason: Option<Seq<u8>>,
    pub error: Option<Seq<u8>>,
    pub payload: Option<Seq<u8>>,
}

/// The envelope before any field was seen.
pub open spec fn empty_env() -> SpecEnv {
    SpecEnv {
        janus: None,
        transaction: None,
        session_id: None,
        handle_id: None,
        sender: None,
        id: None,
        code: None,
        reason: None,
        error: None,
        payload: None,
    }
}

/// Records one `key: value` member in the envelope. A later member under the
/// same key wins; a value of the wrong shape, and any unrecognized key, is
/// dropped.
pub open spec fn update_env(env: SpecEnv, k: Seq<u8>, v: SpecVal) -> SpecEnv {
    if k == k_janus() {
        match v {
            SpecVal::Text(t) => SpecEnv { janus: Some(t), ..env },
            _ => env,
        }
    } else if k == k_transaction() {
        match v {
            SpecVal::Text(t) => SpecEnv { transaction: Some(t), ..env },
            _ => env,
        }
    } else if k == k_reason() {
        match v {
            SpecVal::Text(t) => SpecEnv { reason: Some(t), ..env },
            _ => env,
        }
    } else if k == k_session_id() {
        match v {
            SpecVal::Num(n) => SpecEnv { session_id: Some(n), ..env },
            _ => env,
        }
    } else if k == k_handle_id() {
        match v {
            SpecVal::Num(n) => SpecEnv { handle_id: Some(n), ..env },
            _ => env,
        }
    } else if k == k_sender() {
        match v {
            SpecVal::Num(n) => SpecEnv { sender: Some(n), ..env },
            _ => env,
        }
    } else if k == k_id() {
        match v {
            SpecVal::Num(n) => SpecEnv { id: Some(n), ..env },
            _ => env,
        }
    } else if k == k_code() {
        match v {
            SpecVal::Num(n) => SpecEnv { code: Some(n), ..env },
            _ => env,
        }
    } else if k == k_error() {
        match v {
            SpecVal::Raw(r) => SpecEnv { error: Some(r), ..env },
            _ => env,
        }
    } else if k == k_data() || k == k_plugindata() || k == k_body() {
        match v {
            SpecVal::Raw(r) => SpecEnv { payload: Some(r), ..env },
            _ => env,
        }
    } else {
        env
    }
}

/// Parses the members of the top-level object, from just after the opening
/// brace (or a separating comma) to just after the closing brace.
pub open spec fn parse_members(s: Seq<u8>, env: SpecEnv) -> Option<(SpecEnv, Seq<u8>)>
    decreases s.len(),
    via parse_members_dec
{
    let t0 = trim(s);
    match parse_string(t0) {
        None => None,
        Some((k, r1)) => {
            let r2 = trim(r1);
            if r2.len() == 0 || r2[0] != 0x3a {
                None
            } else {
                match parse_value(r2.skip(1)) {
                    None => None,
                    Some((v, r3)) => {
                        let env2 = update_env(env, k, v);
                        let r4 = trim(r3);
                        if r4.len() == 0 {
                            None
                        } else if r4[0] == 0x2c {
                            parse_members(r4.skip(1), env2)
                        } else if r4[0] == 0x7d {
                            Some((env2, r4.skip(1)))
                        } else {
                            None
                        }
                    },
                }
            }
        },
    }
}

#[via_fn]
proof fn parse_members_dec(s: Seq<u8>, env: SpecEnv) {
    lemma_trim_len(s);
    let t0 = trim(s);
    lemma_parse_string_len(t0);
    if parse_string(t0) is Some {
        let (k, r1) = parse_string(t0)->Some_0;
        lemma_trim_len(r1);
        let r2 = trim(r1);
        if r2.len() > 0 && r2[0] == 0x3a {
            lemma_parse_value_len(r2.skip(1));
            if parse_value(r2.skip(1)) is Some {
                let (v, r3) = parse_value(r2.skip(1))->Some_0;
                lemma_trim_len(r3);
            }
        }
    }
}

/// Parses a whole frame: one object, nothing but whitespace around or after
/// it.
pub open spec fn parse_frame(s: Seq<u8>) -> Option<SpecEnv> {
    let t = trim(s);
    if t.len() == 0 || t[0] != 0x7b {
        None
    } else {
        let u = trim(t.skip(1));
        if u.len() > 0 && u[0] == 0x7d {
            if trim(u.skip(1)).len() == 0 {
                Some(empty_env())
            } else {
                None
            }
        } else {
            match parse_members(t.skip(1), empty_env()) {
                Some((env, rest)) => if trim(rest).len() == 0 {
                    Some(env)
                } else {
                    None
                },
                None => None,
            }
        }
    }
}


// ---------------------------------------------------------------------------
// Classification: reply or event
// ---------------------------------------------------------------------------

/// An inbound frame after classification, at the specification level.
pub enum SpecInbound {
    /// A solicited success reply.
    Success {
        transaction: Seq<u8>,
        session_id: Option<u64>,
        sender: Option<u64>,
        data_id: Option<u64>,
        payload: Option<Seq<u8>>,
    },
    /// A solicited protocol-level rejection.
    GatewayError { transaction: Seq<u8>, code: u64, reason: Seq<u8> },
    /// A solicited acknowledgement without payload.
    Ack { transaction: Seq<u8>, session_id: Option<u64> },
    /// An unsolicited push, or any known frame that no transaction ties to a
    /// waiter.
    Event {
        janus: Seq<u8>,
        transaction: Option<Seq<u8>>,
        session_id: Option<u64>,
        handle_id: Option<u64>,
        sender: Option<u64>,
        payload: Option<Seq<u8>>,
    },
}

/// The top-level status words the engine recognizes.
pub open spec fn known_status(j: Seq<u8>) -> bool {
    j == k_success() || j == k_error() || j == k_ack() || j == k_event() || j == k_create() || j
        == k_attach() || j == k_keepalive() || j == k_message()
}

/// The envelope of a captured nested payload, if it parses as an object.
pub open spec fn nested_env(p: Option<Seq<u8>>) -> Option<SpecEnv> {
    match p {
        Some(raw) => parse_frame(raw),
        None => None,
    }
}

/// The `id` field of a nested `data` payload, as carried by create and attach
/// replies.
pub open spec fn nested_id(p: Option<Seq<u8>>) -> Option<u64> {
    match nested_env(p) {
        Some(e) => e.id,
        None => None,
    }
}

/// The `code` of a nested `error` payload; zero when absent.
pub open spec fn nested_code(p: Option<Seq<u8>>) -> u64 {
    match nested_env(p) {
        Some(e) => match e.code {
            Some(c) => c,
            None => 0,
        },
        None => 0,
    }
}

/// The `reason` of a nested `error` payload; empty when absent.
pub open spec fn nested_reason(p: Option<Seq<u8>>) -> Seq<u8> {
    match nested_env(p) {
        Some(e) => match e.reason {
            Some(r) => r,
            None => Seq::empty(),
        },
        None => Seq::empty(),
    }
}

/// What decoding a frame yields: `None` stands for a malformed frame, which
/// is dropped. A frame is a reply exactly when it carries a transaction and a
/// success, error or ack status; every other frame under a known status is an
/// event.
pub open spec fn spec_decode(s: Seq<u8>) -> Option<SpecInbound> {
    match parse_frame(s) {
        None => None,
        Some(env) => match env.janus {
            None => None,
            Some(j) => if !known_status(j) {
                None
            } else if j == k_success() && env.transaction is Some {
                Some(SpecInbound::Success {
                    transaction: env.transaction->Some_0,
                    session_id: env.session_id,
                    sender: env.sender,
                    data_id: nested_id(env.payload),
                    payload: env.payload,
                })
            } else if j == k_error() && env.transaction is Some {
                Some(SpecInbound::GatewayError {
                    transaction: env.transaction->Some_0,
                    code: nested_code(env.error),
                    reason: nested_reason(env.error),
                })
            } else if j == k_ack() && env.transaction is Some {
                Some(SpecInbound::Ack {
                    transaction: env.transaction->Some_0,
                    session_id: env.session_id,
                })
            } else {
                Some(SpecInbound::Event {
                    janus: j,
                    transaction: env.transaction,
                    session_id: env.session_id,
                    handle_id: env.handle_id,
                    sender: env.sender,
                    payload: env.payload,
                })
            },
        },
    }
}

// ---------------------------------------------------------------------------
// Rendering outbound commands
// ---------------------------------------------------------------------------

/// A byte string between quotes.
pub open spec fn quoted(t: Seq<u8>) -> Seq<u8> {
    seq![0x22u8] + t + seq![0x22u8]
}

/// The decimal digits of `n`, most significant first, no leading zero.
pub open spec fn dec_digits(n: u64) -> Seq<u8>
    decreases n,
    via dec_digits_dec
{
    if n < 10 {
        seq![(0x30 + n) as u8]
    } else {
        dec_digits(n / 10).push((0x30 + (n % 10)) as u8)
    }
}

#[via_fn]
proof fn dec_digits_dec(n: u64) {
    if n >= 10 {
        vstd::arithmetic::div_mod::lemma_div_is_strictly_smaller(n as int, 10);
    }
}

/// One `"key":"value"` member.
pub open spec fn str_member(k: Seq<u8>, v: Seq<u8>) -> Seq<u8> {
    quoted(k) + seq![0x3au8] + quoted(v)
}

/// One `"key":n` member.
pub open spec fn num_member(k: Seq<u8>, n: u64) -> Seq<u8> {
    quoted(k) + seq![0x3au8] + dec_digits(n)
}

/// One value of an opaque request body.
pub enum BodyVal {
    Text(Vec<u8>),
    Num(u64),
}

/// One member of an opaque request body.
pub struct BodyField {
    pub key: Vec<u8>,
    pub val: BodyVal,
}

/// A body value at the specification level.
pub enum SpecBodyVal {
    Text(Seq<u8>),
    Num(u64),
}

/// A body member at the specification level.
pub struct SpecBodyField {
    pub key: Seq<u8>,
    pub val: SpecBodyVal,
}

/// The mathematical value of one body member.
pub open spec fn body_field_view(f: BodyField) -> SpecBodyField {
    SpecBodyField {
        key: f.key@,
        val: match f.val {
            BodyVal::Text(t) => SpecBodyVal::Text(t@),
            BodyVal::Num(n) => SpecBodyVal::Num(n),
        },
    }
}

/// The mathematical value of a body.
pub open spec fn body_view(fs: Seq<BodyField>) -> Seq<SpecBodyField> {
    fs.map_values(|f: BodyField| body_field_view(f))
}

/// Renders one body value.
pub open spec fn render_body_val(v: SpecBodyVal) -> Seq<u8> {
    match v {
        SpecBodyVal::Text(t) => quoted(t),
        SpecBodyVal::Num(n) => dec_digits(n),
    }
}

/// Renders one body member.
pub open spec fn render_member(f: SpecBodyField) -> Seq<u8> {
    quoted(f.key) + seq![0x3au8] + render_body_val(f.val)
}

/// Renders the members of a body from position `i` on, comma separated.
pub open spec fn render_members_from(fs: Seq<SpecBodyField>, i: int) -> Seq<u8>
    decreases fs.len() - i,
{
    if i < 0 || i >= fs.len() {
        Seq::empty()
    } else if i == fs.len() - 1 {
        render_member(fs[i])
    } else {
        render_member(fs[i]) + seq![0x2cu8] + render_members_from(fs, i + 1)
    }
}

/// Renders a whole body object.
pub open spec fn render_body(fs: Seq<SpecBodyField>) -> Seq<u8> {
    seq![0x7bu8] + render_members_from(fs, 0) + seq![0x7du8]
}

/// The kind of an outbound command.
pub enum CommandKind {
    Create,
    Attach,
    Keepalive,
    Message,
}

/// A logical outbound request, ready to be rendered to the wire.
pub struct Command {
    pub kind: CommandKind,
    pub secret: Option<Vec<u8>>,
    pub plugin: Option<Vec<u8>>,
    pub transaction: Vec<u8>,
    pub session_id: Option<u64>,
    pub handle_id: Option<u64>,
    pub body: Option<Vec<BodyField>>,
}

/// A command at the specification level.
pub struct SpecCommand {
    pub kind: CommandKind,
    pub secret: Option<Seq<u8>>,
    pub plugin: Option<Seq<u8>>,
    pub transaction: Seq<u8>,
    pub session_id: Option<u64>,
    pub handle_id: Option<u64>,
    pub body: Option<Seq<SpecBodyField>>,
}

/// The mathematical value of a command.
pub open spec fn cmd_view(c: Command) -> SpecCommand {
    SpecCommand {
        kind: c.kind,
        secret: match c.secret {
            Some(s) => Some(s@),
            None => None,
        },
        plugin: match c.plugin {
            Some(p) => Some(p@),
            None => None,
        },
        transaction: c.transaction@,
        session_id: c.session_id,
        handle_id: c.handle_id,
        body: match c.body {
            Some(fs) => Some(body_view(fs@)),
            None => None,
        },
    }
}

/// The protocol word of a command kind.
pub open spec fn kind_word(k: CommandKind) -> Seq<u8> {
    match k {
        CommandKind::Create => k_create(),
        CommandKind::Attach => k_attach(),
        CommandKind::Keepalive => k_keepalive(),
        CommandKind::Message => k_message(),
    }
}

/// Well-formedness of a command for the wire: every text stands plain, so it
/// needs no escaping between quotes.
pub open spec fn cmd_wf(c: SpecCommand) -> bool {
    &&& plain(c.transaction)
    &&& match c.secret {
        Some(s) => plain(s),
        None => true,
    }
    &&& match c.plugin {
        Some(p) => plain(p),
        None => true,
    }
    &&& match c.body {
        Some(fs) => forall|i: int|
            0 <= i < fs.len() ==> plain((#[trigger] fs[i]).key) && match fs[i].val {
                SpecBodyVal::Text(t) => plain(t),
                SpecBodyVal::Num(_) => true,
            },
        None => true,
    }
}

/// The wire rendering of a command: the fixed envelope members in a fixed
/// order, each optional member present exactly when the command carries it.
pub open spec fn spec_frame(c: SpecCommand) -> Seq<u8> {
    seq![0x7bu8] + str_member(k_janus(), kind_word(c.kind)) + (match c.secret {
        Some(s) => seq![0x2cu8] + str_member(k_apisecret(), s),
        None => Seq::empty(),
    }) + (match c.plugin {
        Some(p) => seq![0x2cu8] + str_member(k_plugin(), p),
        None => Seq::empty(),
    }) + seq![0x2cu8] + str_member(k_transaction(), c.transaction) + (match c.session_id {
        Some(n) => seq![0x2cu8] + num_member(k_session_id(), n),
        None => Seq::empty(),
    }) + (match c.handle_id {
        Some(n) => seq![0x2cu8] + num_member(k_handle_id(), n),
        None => Seq::empty(),
    }) + (match c.body {
        Some(fs) => seq![0x2cu8] + quoted(k_body()) + seq![0x3au8] + render_body(fs),
        None => Seq::empty(),
    }) + seq![0x7du8]
}


// ---------------------------------------------------------------------------
// Executable rendering
// ---------------------------------------------------------------------------

/// Appends every byte of `v`.
fn push_seq(out: &mut Vec<u8>, v: &Vec<u8>)
    ensures
        final(out)@ == old(out)@ + v@,
{
    let mut i: usize = 0;
    while i < v.len()
        invariant
            0 <= i <= v@.len(),
            out@ == old(out)@ + v@.take(i as int),
        decreases v@.len() - i,
    {
        out.push(v[i]);
        proof {
            assert(old(out)@ + v@.take(i as int) + seq![v@[i as int]] =~= old(out)@ + v@.take(
                i as int + 1,
            ));
        }
        i += 1;
    }
    proof {
        assert(old(out)@ + v@.take(v@.len() as int) =~= old(out)@ + v@);
    }
}

/// Appends `v` between quotes.
fn push_quoted(out: &mut Vec<u8>, v: &Vec<u8>)
    ensures
        final(out)@ == old(out)@ + quoted(v@),
{
    out.push(0x22);
    proof {
        assert(old(out)@ + seq![0x22u8] =~= old(out)@.push(0x22u8));
    }
    push_seq(out, v);
    out.push(0x22);
    proof {
        assert(old(out)@.push(0x22u8) + v@ + seq![0x22u8] =~= old(out)@ + quoted(v@));
        assert((old(out)@.push(0x22u8) + v@).push(0x22u8) =~= old(out)@.push(0x22u8) + v@ + seq![
            0x22u8,
        ]);
    }
}

/// Appends the decimal digits of `n`.
pub fn push_dec(out: &mut Vec<u8>, n: u64)
    ensures
        final(out)@ == old(out)@ + dec_digits(n),
    decreases n,
{
    if n < 10 {
        out.push(0x30 + (n as u8));
        proof {
            assert(old(out)@ + dec_digits(n) =~= old(out)@.push((0x30 + n) as u8));
        }
    } else {
        proof {
            vstd::arithmetic::div_mod::lemma_div_is_strictly_smaller(n as int, 10);
        }
        push_dec(out, n / 10);
        out.push(0x30 + ((n % 10) as u8));
        proof {
            assert(old(out)@ + dec_digits(n) =~= (old(out)@ + dec_digits(n / 10)).push(
                (0x30 + (n % 10)) as u8,
            ));
        }
    }
}

/// Appends one `"key":"value"` member.
fn push_str_member(out: &mut Vec<u8>, k: &Vec<u8>, v: &Vec<u8>)
    ensures
        final(out)@ == old(out)@ + str_member(k@, v@),
{
    push_quoted(out, k);
    out.push(0x3a);
    push_quoted(out, v);
    proof {
        assert(((old(out)@ + quoted(k@)).push(0x3au8)) + quoted(v@) =~= old(out)@ + str_member(
            k@,
            v@,
        ));
    }
}

/// Appends one `"key":n` member.
fn push_num_member(out: &mut Vec<u8>, k: &Vec<u8>, n: u64)
    ensures
        final(out)@ == old(out)@ + num_member(k@, n),
{
    push_quoted(out, k);
    out.push(0x3a);
    push_dec(out, n);
    proof {
        assert(((old(out)@ + quoted(k@)).push(0x3au8)) + dec_digits(n) =~= old(out)@ + num_member(
            k@,
            n,
        ));
    }
}

/// Appends the members of a body from position `i` on.
fn push_members(out: &mut Vec<u8>, fs: &Vec<BodyField>, i: usize)
    requires
        i <= fs@.len(),
    ensures
        final(out)@ == old(out)@ + render_members_from(body_view(fs@), i as int),
    decreases fs@.len() - i,
{
    if i >= fs.len() {
        proof {
            assert(old(out)@ + render_members_from(body_view(fs@), i as int) =~= old(out)@);
        }
        return ;
    }
    let f = &fs[i];
    push_quoted(out, &f.key);
    out.push(0x3a);
    match &f.val {
        BodyVal::Text(t) => push_quoted(out, t),
        BodyVal::Num(n) => push_dec(out, *n),
    }
    proof {
        assert(out@ =~= old(out)@ + render_member(body_view(fs@)[i as int]));
    }
    if i + 1 < fs.len() {
        out.push(0x2c);
        push_members(out, fs, i + 1);
        proof {
            assert(((old(out)@ + render_member(body_view(fs@)[i as int])).push(0x2cu8))
                + render_members_from(body_view(fs@), i as int + 1) =~= old(out)@
                + render_members_from(body_view(fs@), i as int));
        }
    } else {
        proof {
            assert(old(out)@ + render_member(body_view(fs@)[i as int]) =~= old(out)@
                + render_members_from(body_view(fs@), i as int));
        }
    }
}

/// Appends one byte.
fn push_one(out: &mut Vec<u8>, b: u8)
    ensures
        final(out)@ == old(out)@ + seq![b],
{
    out.push(b);
    proof {
        assert(old(out)@.push(b) =~= old(out)@ + seq![b]);
    }
}

/// Renders an optional `,"key":"value"` segment.
fn seg_opt_str(k: &Vec<u8>, o: &Option<Vec<u8>>) -> (v: Vec<u8>)
    ensures
        v@ == (match *o {
            Some(s) => seq![0x2cu8] + str_member(k@, s@),
            None => Seq::<u8>::empty(),
        }),
{
    match o {
        Some(s) => {
            let mut v: Vec<u8> = Vec::new();
            push_one(&mut v, 0x2c);
            proof {
                assert(Seq::<u8>::empty() + seq![0x2cu8] =~= seq![0x2cu8]);
            }
            push_str_member(&mut v, k, s);
            v
        },
        None => {
            let v: Vec<u8> = Vec::new();
            v
        },
    }
}

/// Renders an optional `,"key":n` segment.
fn seg_opt_num(k: &Vec<u8>, o: &Option<u64>) -> (v: Vec<u8>)
    ensures
        v@ == (match *o {
            Some(n) => seq![0x2cu8] + num_member(k@, n),
            None => Seq::<u8>::empty(),
        }),
{
    match o {
        Some(n) => {
            let mut v: Vec<u8> = Vec::new();
            push_one(&mut v, 0x2c);
            proof {
                assert(Seq::<u8>::empty() + seq![0x2cu8] =~= seq![0x2cu8]);
            }
            push_num_member(&mut v, k, *n);
            v
        },
        None => {
            let v: Vec<u8> = Vec::new();
            v
        },
    }
}

/// Renders the optional `,"body":{...}` segment.
fn seg_body(o: &Option<Vec<BodyField>>) -> (v: Vec<u8>)
    ensures
        v@ == (match *o {
            Some(fs) => seq![0x2cu8] + quoted(k_body()) + seq![0x3au8] + render_body(
                body_view(fs@),
            ),
            None => Seq::<u8>::empty(),
        }),
{
    match o {
        Some(fs) => {
            let mut v: Vec<u8> = Vec::new();
            push_one(&mut v, 0x2c);
            proof {
                assert(Seq::<u8>::empty() + seq![0x2cu8] =~= seq![0x2cu8]);
            }
            let k = lit_body();
            push_quoted(&mut v, &k);
            push_one(&mut v, 0x3a);
            let mut b: Vec<u8> = Vec::new();
            push_one(&mut b, 0x7b);
            proof {
                assert(Seq::<u8>::empty() + seq![0x7bu8] =~= seq![0x7bu8]);
            }
            push_members(&mut b, fs, 0);
            push_one(&mut b, 0x7d);
            proof {
                assert(b@ == render_body(body_view(fs@)));
            }
            push_seq(&mut v, &b);
            v
        },
        None => {
            let v: Vec<u8> = Vec::new();
            v
        },
    }
}

/// Renders a command to its wire frame.
///
/// The frame holds the command's protocol word, then, each exactly when the
/// command carries it: the shared secret, the plugin name, the transaction,
/// the session and handle ids, and the opaque body.
#[verifier::rlimit(100)]
#[verifier::spinoff_prover]
pub fn encode(c: &Command) -> (out: Vec<u8>)
    ensures
        out@ == spec_frame(cmd_view(*c)),
{
    let mut out: Vec<u8> = Vec::new();
    push_one(&mut out, 0x7b);
    proof {
        assert(Seq::<u8>::empty() + seq![0x7bu8] =~= seq![0x7bu8]);
    }
    let kind = match c.kind {
        CommandKind::Create => lit_create(),
        CommandKind::Attach => lit_attach(),
        CommandKind::Keepalive => lit_keepalive(),
        CommandKind::Message => lit_message(),
    };
    let kj = lit_janus();
    push_str_member(&mut out, &kj, &kind);
    let ks = lit_apisecret();
    let seg1 = seg_opt_str(&ks, &c.secret);
    push_seq(&mut out, &seg1);
    let kp = lit_plugin();
    let seg2 = seg_opt_str(&kp, &c.plugin);
    push_seq(&mut out, &seg2);
    push_one(&mut out, 0x2c);
    let kt = lit_transaction();
    push_str_member(&mut out, &kt, &c.transaction);
    let ksi = lit_session_id();
    let seg3 = seg_opt_num(&ksi, &c.session_id);
    push_seq(&mut out, &seg3);
    let khi = lit_handle_id();
    let seg4 = seg_opt_num(&khi, &c.handle_id);
    push_seq(&mut out, &seg4);
    let seg5 = seg_body(&c.body);
    push_seq(&mut out, &seg5);
    push_one(&mut out, 0x7d);
    proof {
        assert(out@ == spec_frame(cmd_view(*c)));
    }
    out
}

pub fn lit_janus() -> (v: Vec<u8>)
    ensures
        v@ == k_janus(),
{
    let v: Vec<u8> = vec![0x6a, 0x61, 0x6e, 0x75, 0x73];
    proof { assert(v@ =~= k_janus()); }
    v
}

pub fn lit_apisecret() -> (v: Vec<u8>)
    ensures
        v@ == k_apisecret(),
{
    let v: Vec<u8> = vec![0x61, 0x70, 0x69, 0x73, 0x65, 0x63, 0x72, 0x65, 0x74];
    proof { assert(v@ =~= k_apisecret()); }
    v
}

pub fn lit_plugin() -> (v: Vec<u8>)
    ensures
        v@ == k_plugin(),
{
    let v: Vec<u8> = vec![0x70, 0x6c, 0x75, 0x67, 0x69, 0x6e];
    proof { assert(v@ =~= k_plugin()); }
    v
}

pub fn lit_transaction() -> (v: Vec<u8>)
    ensures
        v@ == k_transaction(),
{
    let v: Vec<u8> = vec![0x74, 0x72, 0x61, 0x6e, 0x73, 0x61, 0x63, 0x74, 0x69, 0x6f, 0x6e];
    proof { assert(v@ =~= k_transaction()); }
    v
}

pub fn lit_session_id() -> (v: Vec<u8>)
    ensures
        v@ == k_session_id(),
{
    let v: Vec<u8> = vec![0x73, 0x65, 0x73, 0x73, 0x69, 0x6f, 0x6e, 0x5f, 0x69, 0x64];
    proof { assert(v@ =~= k_session_id()); }
    v
}

pub fn lit_handle_id() -> (v: Vec<u8>)
    ensures
        v@ == k_handle_id(),
{
    let v: Vec<u8> = vec![0x68, 0x61, 0x6e, 0x64, 0x6c, 0x65, 0x5f, 0x69, 0x64];
    proof { assert(v@ =~= k_handle_id()); }
    v
}

pub fn lit_sender() -> (v: Vec<u8>)
    ensures
        v@ == k_sender(),
{
    let v: Vec<u8> = vec![0x73, 0x65, 0x6e, 0x64, 0x65, 0x72];
    proof { assert(v@ =~= k_sender()); }
    v
}

pub fn lit_body() -> (v: Vec<u8>)
    ensures
        v@ == k_body(),
{
    let v: Vec<u8> = vec![0x62, 0x6f, 0x64, 0x79];
    proof { assert(v@ =~= k_body()); }
    v
}

pub fn lit_data() -> (v: Vec<u8>)
    ensures
        v@ == k_data(),
{
    let v: Vec<u8> = vec![0x64, 0x61, 0x74, 0x61];
    proof { assert(v@ =~= k_data()); }
    v
}

pub fn lit_plugindata() -> (v: Vec<u8>)
    ensures
        v@ == k_plugindata(),
{
    let v: Vec<u8> = vec![0x70, 0x6c, 0x75, 0x67, 0x69, 0x6e, 0x64, 0x61, 0x74, 0x61];
    proof { assert(v@ =~= k_plugindata()); }
    v
}

pub fn lit_error() -> (v: Vec<u8>)
    ensures
        v@ == k_error(),
{
    let v: Vec<u8> = vec![0x65, 0x72, 0x72, 0x6f, 0x72];
    proof { assert(v@ =~= k_error()); }
    v
}

pub fn lit_code() -> (v: Vec<u8>)
    ensures
        v@ == k_code(),
{
    let v: Vec<u8> = vec![0x63, 0x6f, 0x64, 0x65];
    proof { assert(v@ =~= k_code()); }
    v
}

pub fn lit_reason() -> (v: Vec<u8>)
    ensures
        v@ == k_reason(),
{
    let v: Vec<u8> = vec![0x72, 0x65, 0x61, 0x73, 0x6f, 0x6e];
    proof { assert(v@ =~= k_reason()); }
    v
}

pub fn lit_id() -> (v: Vec<u8>)
    ensures
        v@ == k_id(),
{
    let v: Vec<u8> = vec![0x69, 0x64];
    proof { assert(v@ =~= k_id()); }
    v
}

pub fn lit_success() -> (v: Vec<u8>)
    ensures
        v@ == k_success(),
{
    let v: Vec<u8> = vec![0x73, 0x75, 0x63, 0x63, 0x65, 0x73, 0x73];
    proof { assert(v@ =~= k_success()); }
    v
}

pub fn lit_ack() -> (v: Vec<u8>)
    ensures
        v@ == k_ack(),
{
    let v: Vec<u8> = vec![0x61, 0x63, 0x6b];
    proof { assert(v@ =~= k_ack()); }
    v
}

pub fn lit_event() -> (v: Vec<u8>)
    ensures
        v@ == k_event(),
{
    let v: Vec<u8> = vec![0x65, 0x76, 0x65, 0x6e, 0x74];
    proof { assert(v@ =~= k_event()); }
    v
}

pub fn lit_create() -> (v: Vec<u8>)
    ensures
        v@ == k_create(),
{
    let v: Vec<u8> = vec![0x63, 0x72, 0x65, 0x61, 0x74, 0x65];
    proof { assert(v@ =~= k_create()); }
    v
}

pub fn lit_attach() -> (v: Vec<u8>)
    ensures
        v@ == k_attach(),
{
    let v: Vec<u8> = vec![0x61, 0x74, 0x74, 0x61, 0x63, 0x68];
    proof { assert(v@ =~= k_attach()); }
    v
}

pub fn lit_keepalive() -> (v: Vec<u8>)
    ensures
        v@ == k_keepalive(),
{
    let v: Vec<u8> = vec![0x6b, 0x65, 0x65, 0x70, 0x61, 0x6c, 0x69, 0x76, 0x65];
    proof { assert(v@ =~= k_keepalive()); }
    v
}

pub fn lit_message() -> (v: Vec<u8>)
    ensures
        v@ == k_message(),
{
    let v: Vec<u8> = vec![0x6d, 0x65, 0x73, 0x73, 0x61, 0x67, 0x65];
    proof { assert(v@ =~= k_message()); }
    v
}

pub fn lit_request() -> (v: Vec<u8>)
    ensures
        v@ == k_request(),
{
    let v: Vec<u8> = vec![0x72, 0x65, 0x71, 0x75, 0x65, 0x73, 0x74];
    proof { assert(v@ =~= k_request()); }
    v
}

pub fn lit_room() -> (v: Vec<u8>)
    ensures
        v@ == k_room(),
{
    let v: Vec<u8> = vec![0x72, 0x6f, 0x6f, 0x6d];
    proof { assert(v@ =~= k_room()); }
    v
}

pub fn lit_admin_key() -> (v: Vec<u8>)
    ensures
        v@ == k_admin_key(),
{
    let v: Vec<u8> = vec![0x61, 0x64, 0x6d, 0x69, 0x6e, 0x5f, 0x6b, 0x65, 0x79];
    proof { assert(v@ =~= k_admin_key()); }
    v
}

pub fn lit_secret() -> (v: Vec<u8>)
    ensures
        v@ == k_secret(),
{
    let v: Vec<u8> = vec![0x73, 0x65, 0x63, 0x72, 0x65, 0x74];
    proof { assert(v@ =~= k_secret()); }
    v
}

pub fn lit_kick() -> (v: Vec<u8>)
    ensures
        v@ == k_kick(),
{
    let v: Vec<u8> = vec![0x6b, 0x69, 0x63, 0x6b];
    proof { assert(v@ =~= k_kick()); }
    v
}


// ---------------------------------------------------------------------------
// Executable parsing
// ---------------------------------------------------------------------------

/// Compares two byte strings.
pub fn bytes_eq(a: &Vec<u8>, b: &Vec<u8>) -> (r: bool)
    ensures
        r == (a@ == b@),
{
    if a.len() != b.len() {
        return false;
    }
    let mut i: usize = 0;
    while i < a.len()
        invariant
            0 <= i <= a@.len(),
            a@.len() == b@.len(),
            forall|j: int| 0 <= j < i ==> a@[j] == b@[j],
        decreases a@.len() - i,
    {
        if a[i] != b[i] {
            return false;
        }
        i += 1;
    }
    proof {
        assert(a@ =~= b@);
    }
    true
}

/// Copies a byte string.
pub fn copy_bytes(s: &Vec<u8>) -> (v: Vec<u8>)
    ensures
        v@ == s@,
{
    let v = copy_range(s, 0, s.len());
    proof {
        assert(s@.subrange(0, s@.len() as int) =~= s@);
    }
    v
}

/// Copies the bytes of `s` between two positions.
fn copy_range(s: &Vec<u8>, from: usize, to: usize) -> (v: Vec<u8>)
    requires
        from <= to <= s@.len(),
    ensures
        v@ == s@.subrange(from as int, to as int),
{
    let mut v: Vec<u8> = Vec::new();
    let mut i: usize = from;
    while i < to
        invariant
            from <= i <= to <= s@.len(),
            v@ == s@.subrange(from as int, i as int),
        decreases to - i,
    {
        v.push(s[i]);
        proof {
            assert(s@.subrange(from as int, i as int).push(s@[i as int]) =~= s@.subrange(
                from as int,
                i as int + 1,
            ));
        }
        i += 1;
    }
    v
}

/// Advances past leading whitespace.
fn skip_ws_at(s: &Vec<u8>, i: usize) -> (j: usize)
    requires
        i <= s@.len(),
    ensures
        i <= j <= s@.len(),
        s@.skip(j as int) == trim(s@.skip(i as int)),
{
    let mut j: usize = i;
    while j < s.len() && (s[j] == 0x20 || s[j] == 0x09 || s[j] == 0x0a || s[j] == 0x0d)
        invariant
            i <= j <= s@.len(),
            trim(s@.skip(i as int)) == trim(s@.skip(j as int)),
        decreases s@.len() - j,
    {
        proof {
            assert(s@.skip(j as int)[0] == s@[j as int]);
            assert(s@.skip(j as int).skip(1) =~= s@.skip(j as int + 1));
        }
        j += 1;
    }
    proof {
        if j < s.len() {
            assert(trim(s@.skip(j as int)) == s@.skip(j as int));
        } else {
            assert(s@.skip(j as int) =~= Seq::<u8>::empty());
        }
    }
    j
}

/// Parses a quoted string starting at `i`, returning its verbatim content
/// and the position after the closing quote.
fn parse_string_at(s: &Vec<u8>, i: usize) -> (r: Option<(Vec<u8>, usize)>)
    requires
        i <= s@.len(),
    ensures
        match parse_string(s@.skip(i as int)) {
            Some((t, rest)) => {
                &&& r is Some
                &&& r->Some_0.0@ == t
                &&& i < r->Some_0.1 <= s@.len()
                &&& s@.skip(r->Some_0.1 as int) == rest
            },
            None => r is None,
        },
{
    if i >= s.len() || s[i] != 0x22 {
        return None;
    }
    let mut j: usize = i + 1;
    let mut tv: Vec<u8> = Vec::new();
    proof {
        assert(s@.skip(i as int)[0] == s@[i as int]);
        assert(s@.skip(i as int).skip(1) =~= s@.skip(i as int + 1));
        assert forall|t2: Seq<u8>| true implies (Seq::<u8>::empty() + t2) == t2 by {
            assert(Seq::<u8>::empty() + t2 =~= t2);
        }
    }
    loop
        invariant
            i + 1 <= j <= s@.len(),
            s@[i as int] == 0x22,
            i < s@.len(),
            parse_string(s@.skip(i as int)) == (match scan_string(s@.skip(j as int)) {
                Some((t2, rest)) => Some::<(Seq<u8>, Seq<u8>)>((tv@ + t2, rest)),
                None => None::<(Seq<u8>, Seq<u8>)>,
            }),
        decreases s@.len() - j,
    {
        proof {
            assert(s@.skip(i as int).skip(1) =~= s@.skip(i as int + 1));
        }
        if j >= s.len() {
            proof {
                assert(s@.skip(j as int) =~= Seq::<u8>::empty());
            }
            return None;
        }
        let b = s[j];
        proof {
            assert(s@.skip(j as int)[0] == s@[j as int]);
        }
        if b == 0x22 {
            proof {
                assert(s@.skip(j as int).skip(1) =~= s@.skip(j as int + 1));
                assert(tv@ + Seq::<u8>::empty() =~= tv@);
            }
            return Some((tv, j + 1));
        } else if b == 0x5c {
            if j + 1 >= s.len() {
                proof {
                    assert(s@.skip(j as int).len() < 2);
                }
                return None;
            }
            let b2 = s[j + 1];
            let ghost tv0 = tv@;
            let ghost j0 = j as int;
            proof {
                assert(s@.skip(j0)[1] == s@[j0 + 1]);
                assert(s@.skip(j0).skip(2) =~= s@.skip(j0 + 2));
            }
            tv.push(b);
            tv.push(b2);
            proof {
                assert(scan_string(s@.skip(j0)) == (match scan_string(s@.skip(j0 + 2)) {
                    Some((t, r)) => Some::<(Seq<u8>, Seq<u8>)>((seq![s@[j0], s@[j0 + 1]] + t, r)),
                    None => None::<(Seq<u8>, Seq<u8>)>,
                }));
                assert forall|t2: Seq<u8>| true implies (tv0 + (seq![s@[j0], s@[j0 + 1]] + t2))
                    == (tv@ + t2) by {
                    assert(tv0 + (seq![s@[j0], s@[j0 + 1]] + t2) =~= tv@ + t2);
                }
            }
            j += 2;
        } else {
            let ghost tv0 = tv@;
            let ghost j0 = j as int;
            proof {
                assert(s@.skip(j0).skip(1) =~= s@.skip(j0 + 1));
            }
            tv.push(b);
            proof {
                assert(scan_string(s@.skip(j0)) == (match scan_string(s@.skip(j0 + 1)) {
                    Some((t, r)) => Some::<(Seq<u8>, Seq<u8>)>((seq![s@[j0]] + t, r)),
                    None => None::<(Seq<u8>, Seq<u8>)>,
                }));
                assert forall|t2: Seq<u8>| true implies (tv0 + (seq![s@[j0]] + t2)) == (tv@ + t2)
                    by {
                    assert(tv0 + (seq![s@[j0]] + t2) =~= tv@ + t2);
                }
            }
            j += 1;
        }
    }
}

/// Scans a primitive token starting at `i`.
fn scan_prim_at(s: &Vec<u8>, i: usize) -> (r: (Vec<u8>, usize))
    requires
        i <= s@.len(),
    ensures
        r.0@ == scan_prim(s@.skip(i as int)).0,
        i <= r.1 <= s@.len(),
        s@.skip(r.1 as int) == scan_prim(s@.skip(i as int)).1,
{
    let mut j: usize = i;
    let mut tv: Vec<u8> = Vec::new();
    loop
        invariant
            i <= j <= s@.len(),
            scan_prim(s@.skip(i as int)).0 == tv@ + scan_prim(s@.skip(j as int)).0,
            scan_prim(s@.skip(i as int)).1 == scan_prim(s@.skip(j as int)).1,
        decreases s@.len() - j,
    {
        if j >= s.len() {
            proof {
                assert(s@.skip(j as int) =~= Seq::<u8>::empty());
                assert(tv@ + Seq::<u8>::empty() =~= tv@);
            }
            return (tv, j);
        }
        let b = s[j];
        proof {
            assert(s@.skip(j as int)[0] == s@[j as int]);
        }
        let prim = (0x30 <= b && b <= 0x39) || (0x61 <= b && b <= 0x7a) || (0x41 <= b && b
            <= 0x5a) || b == 0x2d || b == 0x2b || b == 0x2e;
        if !prim {
            proof {
                assert(scan_prim(s@.skip(j as int)).0 =~= Seq::<u8>::empty());
                assert(tv@ + Seq::<u8>::empty() =~= tv@);
            }
            return (tv, j);
        }
        tv.push(b);
        proof {
            assert(s@.skip(j as int).skip(1) =~= s@.skip(j as int + 1));
            let ghost t3 = tv@;
            assert(t3.drop_last() + (seq![s@[j as int]] + scan_prim(s@.skip(j as int + 1)).0) =~= t3
                + scan_prim(s@.skip(j as int + 1)).0);
        }
        j += 1;
    }
}

/// A digit string's value only grows as the string extends.
proof fn lemma_digits_prefix(t: Seq<u8>, k: int)
    requires
        0 <= k <= t.len(),
        all_digits(t),
    ensures
        digits_val(t.take(k)) <= digits_val(t),
    decreases t.len() - k,
{
    if k < t.len() {
        assert(t.take(k + 1).drop_last() =~= t.take(k));
        assert(digits_val(t.take(k + 1)) == digits_val(t.take(k)) * 10 + (t[k] - 0x30) as nat);
        assert(digits_val(t.take(k)) * 10 >= digits_val(t.take(k)));
        lemma_digits_prefix(t, k + 1);
        assert(t.take(t.len() as int) =~= t);
    } else {
        assert(t.take(k) =~= t);
    }
}

/// The step bound of decimal accumulation: `acc * 10 + d` stays within `m`
/// exactly when `acc` is at most `(m - d) / 10`.
proof fn lemma_acc_step(acc: int, d: int, m: int)
    requires
        0 <= d <= 9,
        0 <= acc,
        d <= m,
    ensures
        (acc * 10 + d <= m) <==> (acc <= (m - d) / 10),
{
    let q = (m - d) / 10;
    vstd::arithmetic::div_mod::lemma_fundamental_div_mod(m - d, 10);
    let r = (m - d) % 10;
    if acc <= q {
        assert(acc * 10 <= q * 10);
    } else {
        assert(acc >= q + 1);
        assert(acc * 10 >= (q + 1) * 10);
    }
}

/// Reads an unsigned decimal from a primitive token, exactly when the token
/// is all digits and its value fits.
fn prim_to_num(t: &Vec<u8>) -> (r: Option<u64>)
    ensures
        r == (if all_digits(t@) && digits_val(t@) <= u64::MAX {
            Some(digits_val(t@) as u64)
        } else {
            None::<u64>
        }),
{
    let mut acc: u64 = 0;
    let mut k: usize = 0;
    while k < t.len()
        invariant
            0 <= k <= t@.len(),
            all_digits(t@.take(k as int)),
            acc == digits_val(t@.take(k as int)),
        decreases t@.len() - k,
    {
        let b = t[k];
        if !(0x30 <= b && b <= 0x39) {
            proof {
                assert(!is_digit(t@[k as int]));
            }
            return None;
        }
        let d = b - 0x30;
        if acc > (u64::MAX - (d as u64)) / 10 {
            proof {
                lemma_acc_step(acc as int, d as int, u64::MAX as int);
                assert(t@.take(k as int + 1).drop_last() =~= t@.take(k as int));
                assert(digits_val(t@.take(k as int + 1)) > u64::MAX);
                if all_digits(t@) {
                    lemma_digits_prefix(t@, k as int + 1);
                }
            }
            return None;
        }
        proof {
            lemma_acc_step(acc as int, d as int, u64::MAX as int);
            assert(t@.take(k as int + 1).drop_last() =~= t@.take(k as int));
        }
        acc = acc * 10 + (d as u64);
        k += 1;
    }
    proof {
        assert(t@.take(t@.len() as int) =~= t@);
    }
    Some(acc)
}

/// Skips one nested value (object or array) starting at `i`, returning the
/// position just after it.
fn skip_raw_at(s: &Vec<u8>, i: usize) -> (r: Option<usize>)
    requires
        i <= s@.len(),
    ensures
        match skip_raw(s@.skip(i as int), (0, false, false)) {
            Some(n) => r == Some((i + n) as usize) && i + n <= s@.len(),
            None => r is None,
        },
{
    let mut j: usize = i;
    let mut depth: usize = 0;
    let mut in_str: bool = false;
    let mut esc: bool = false;
    loop
        invariant
            i <= j <= s@.len(),
            depth <= j - i,
            !in_str ==> !esc,
            skip_raw(s@.skip(i as int), (0, false, false)) == (match skip_raw(
                s@.skip(j as int),
                (depth as nat, in_str, esc),
            ) {
                Some(n) => Some((n + j - i) as nat),
                None => None::<nat>,
            }),
        decreases s@.len() - j,
    {
        if j >= s.len() {
            proof {
                assert(s@.skip(j as int) =~= Seq::<u8>::empty());
            }
            return None;
        }
        let b = s[j];
        let ghost j0 = j as int;
        let ghost st0 = (depth as nat, in_str, esc);
        proof {
            assert(s@.skip(j0)[0] == s@[j0]);
            assert(s@.skip(j0).skip(1) =~= s@.skip(j0 + 1));
        }
        if in_str {
            if esc {
                esc = false;
            } else if b == 0x5c {
                esc = true;
            } else if b == 0x22 {
                in_str = false;
            }
        } else {
            if b == 0x22 {
                in_str = true;
            } else if b == 0x7b || b == 0x5b {
                depth = depth + 1;
            } else if b == 0x7d || b == 0x5d {
                if depth > 0 {
                    depth = depth - 1;
                }
            }
        }
        proof {
            assert(raw_step(st0, b) == (depth as nat, in_str, esc));
        }
        j += 1;
        if depth == 0 && !in_str {
            proof {
                assert(raw_done(raw_step(st0, b)));
                assert(skip_raw(s@.skip(j0), st0) == Some(1nat));
            }
            return Some(j);
        }
        proof {
            assert(!raw_done(raw_step(st0, b)));
            assert(skip_raw(s@.skip(j0), st0) == (match skip_raw(
                s@.skip(j0 + 1),
                raw_step(st0, b),
            ) {
                Some(n) => Some((n + 1) as nat),
                None => None::<nat>,
            }));
        }
    }
}

/// A parsed generic value.
pub enum JsonVal {
    /// A quoted string, content verbatim.
    Text(Vec<u8>),
    /// An unsigned integer that fits in 64 bits.
    Num(u64),
    /// Any other value, as its raw byte span.
    Raw(Vec<u8>),
}

/// The mathematical value of a parsed value.
pub open spec fn val_view(v: JsonVal) -> SpecVal {
    match v {
        JsonVal::Text(t) => SpecVal::Text(t@),
        JsonVal::Num(n) => SpecVal::Num(n),
        JsonVal::Raw(r) => SpecVal::Raw(r@),
    }
}

/// Parses one generic value starting at `i`.
fn parse_value_at(s: &Vec<u8>, i: usize) -> (r: Option<(JsonVal, usize)>)
    requires
        i <= s@.len(),
    ensures
        match parse_value(s@.skip(i as int)) {
            Some((v, rest)) => {
                &&& r is Some
                &&& val_view(r->Some_0.0) == v
                &&& i <= r->Some_0.1 <= s@.len()
                &&& s@.skip(r->Some_0.1 as int) == rest
            },
            None => r is None,
        },
{
    let j0 = skip_ws_at(s, i);
    let ghost t = trim(s@.skip(i as int));
    if j0 >= s.len() {
        proof {
            assert(t =~= Seq::<u8>::empty());
        }
        return None;
    }
    let b = s[j0];
    proof {
        assert(t[0] == s@[j0 as int]);
    }
    if b == 0x22 {
        match parse_string_at(s, j0) {
            Some((tv, j)) => Some((JsonVal::Text(tv), j)),
            None => None,
        }
    } else if b == 0x7b || b == 0x5b {
        match skip_raw_at(s, j0) {
            Some(j) => {
                let raw = copy_range(s, j0, j);
                proof {
                    let n = skip_raw(t, (0, false, false))->Some_0;
                    assert(t.take(n as int) =~= s@.subrange(j0 as int, j as int));
                    assert(t.skip(n as int) =~= s@.skip(j as int));
                }
                Some((JsonVal::Raw(raw), j))
            },
            None => None,
        }
    } else {
        let (tok, j) = scan_prim_at(s, j0);
        if tok.len() == 0 {
            return None;
        }
        match prim_to_num(&tok) {
            Some(n) => Some((JsonVal::Num(n), j)),
            None => Some((JsonVal::Raw(tok), j)),
        }
    }
}


// ---------------------------------------------------------------------------
// Executable envelope
// ---------------------------------------------------------------------------

/// The mathematical value of an optional byte string.
pub open spec fn opt_bytes(o: Option<Vec<u8>>) -> Option<Seq<u8>> {
    match o {
        Some(v) => Some(v@),
        None => None,
    }
}

/// The recognized fields of one parsed frame.
pub struct Envelope {
    pub janus: Option<Vec<u8>>,
    pub transaction: Option<Vec<u8>>,
    pub session_id: Option<u64>,
    pub handle_id: Option<u64>,
    pub sender: Option<u64>,
    pub id: Option<u64>,
    pub code: Option<u64>,
    pub reason: Option<Vec<u8>>,
    pub error: Option<Vec<u8>>,
    pub payload: Option<Vec<u8>>,
}

/// The mathematical value of an envelope.
pub open spec fn env_view(e: Envelope) -> SpecEnv {
    SpecEnv {
        janus: opt_bytes(e.janus),
        transaction: opt_bytes(e.transaction),
        session_id: e.session_id,
        handle_id: e.handle_id,
        sender: e.sender,
        id: e.id,
        code: e.code,
        reason: opt_bytes(e.reason),
        error: opt_bytes(e.error),
        payload: opt_bytes(e.payload),
    }
}

/// An envelope with no field seen yet.
fn empty_envelope() -> (e: Envelope)
    ensures
        env_view(e) == empty_env(),
{
    Envelope {
        janus: None,
        transaction: None,
        session_id: None,
        handle_id: None,
        sender: None,
        id: None,
        code: None,
        reason: None,
        error: None,
        payload: None,
    }
}

/// Records one parsed member in the envelope, exactly as `update_env` does.
fn apply_member(env: &mut Envelope, k: &Vec<u8>, v: JsonVal)
    ensures
        env_view(*final(env)) == update_env(env_view(*old(env)), k@, val_view(v)),
{
    let kj = lit_janus();
    let ktx = lit_transaction();
    let krs = lit_reason();
    let ksi = lit_session_id();
    let khi = lit_handle_id();
    let ksn = lit_sender();
    let kid = lit_id();
    let kcd = lit_code();
    let ker = lit_error();
    let kda = lit_data();
    let kpd = lit_plugindata();
    let kbd = lit_body();
    if bytes_eq(k, &kj) {
        match v {
            JsonVal::Text(t) => {
                env.janus = Some(t);
            },
            _ => {},
        }
    } else if bytes_eq(k, &ktx) {
        match v {
            JsonVal::Text(t) => {
                env.transaction = Some(t);
            },
            _ => {},
        }
    } else if bytes_eq(k, &krs) {
        match v {
            JsonVal::Text(t) => {
                env.reason = Some(t);
            },
            _ => {},
        }
    } else if bytes_eq(k, &ksi) {
        match v {
            JsonVal::Num(n) => {
                env.session_id = Some(n);
            },
            _ => {},
        }
    } else if bytes_eq(k, &khi) {
        match v {
            JsonVal::Num(n) => {
                env.handle_id = Some(n);
            },
            _ => {},
        }
    } else if bytes_eq(k, &ksn) {
        match v {
            JsonVal::Num(n) => {
                env.sender = Some(n);
            },
            _ => {},
        }
    } else if bytes_eq(k, &kid) {
        match v {
            JsonVal::Num(n) => {
                env.id = Some(n);
            },
            _ => {},
        }
    } else if bytes_eq(k, &kcd) {
        match v {
            JsonVal::Num(n) => {
                env.code = Some(n);
            },
            _ => {},
        }
    } else if bytes_eq(k, &ker) {
        match v {
            JsonVal::Raw(r) => {
                env.error = Some(r);
            },
            _ => {},
        }
    } else if bytes_eq(k, &kda) || bytes_eq(k, &kpd) || bytes_eq(k, &kbd) {
        match v {
            JsonVal::Raw(r) => {
                env.payload = Some(r);
            },
            _ => {},
        }
    }
}

/// Parses the members of the top-level object starting at `i`, filling the
/// envelope; returns the position just after the closing brace.
fn parse_members_at(s: &Vec<u8>, i: usize, env: &mut Envelope) -> (r: Option<usize>)
    requires
        i <= s@.len(),
    ensures
        match parse_members(s@.skip(i as int), env_view(*old(env))) {
            Some((e, rest)) => {
                &&& r is Some
                &&& env_view(*final(env)) == e
                &&& i <= r->Some_0 <= s@.len()
                &&& s@.skip(r->Some_0 as int) == rest
            },
            None => r is None,
        },
{
    let mut j: usize = i;
    loop
        invariant
            i <= j <= s@.len(),
            parse_members(s@.skip(i as int), env_view(*old(env))) == parse_members(
                s@.skip(j as int),
                env_view(*env),
            ),
        decreases s@.len() - j,
    {
        let ghost jit = j as int;
        let ghost envit = env_view(*env);
        let j0 = skip_ws_at(s, j);
        let (k, j1) = match parse_string_at(s, j0) {
            Some(p) => p,
            None => {
                return None;
            },
        };
        let j2 = skip_ws_at(s, j1);
        if j2 >= s.len() || s[j2] != 0x3a {
            proof {
                let r2 = trim(s@.skip(j1 as int));
                assert(j2 < s@.len() ==> r2[0] == s@[j2 as int]);
            }
            return None;
        }
        proof {
            assert(trim(s@.skip(j1 as int))[0] == s@[j2 as int]);
            assert(s@.skip(j2 as int).skip(1) =~= s@.skip(j2 as int + 1));
        }
        let (v, j3) = match parse_value_at(s, j2 + 1) {
            Some(p) => p,
            None => {
                return None;
            },
        };
        proof {
            lemma_parse_value_len(s@.skip(j2 as int + 1));
        }
        apply_member(env, &k, v);
        let j4 = skip_ws_at(s, j3);
        if j4 >= s.len() {
            return None;
        }
        let b = s[j4];
        proof {
            assert(trim(s@.skip(j3 as int))[0] == s@[j4 as int]);
            assert(s@.skip(j4 as int).skip(1) =~= s@.skip(j4 as int + 1));
        }
        if b == 0x2c {
            j = j4 + 1;
            proof {
                assert(parse_members(s@.skip(jit), envit) == parse_members(
                    s@.skip(j as int),
                    env_view(*env),
                ));
            }
        } else if b == 0x7d {
            return Some(j4 + 1);
        } else {
            return None;
        }
    }
}

/// Parses a whole frame into its envelope: one object, nothing but
/// whitespace around it.
pub fn parse_envelope(s: &Vec<u8>) -> (r: Option<Envelope>)
    ensures
        match parse_frame(s@) {
            Some(e) => r is Some && env_view(r->Some_0) == e,
            None => r is None,
        },
{
    proof {
        assert(s@.skip(0) =~= s@);
    }
    let t = skip_ws_at(s, 0);
    if t >= s.len() || s[t] != 0x7b {
        proof {
            if t < s.len() {
                assert(trim(s@)[0] == s@[t as int]);
            }
        }
        return None;
    }
    proof {
        assert(trim(s@)[0] == s@[t as int]);
        assert(s@.skip(t as int).skip(1) =~= s@.skip(t as int + 1));
    }
    let u = skip_ws_at(s, t + 1);
    if u < s.len() && s[u] == 0x7d {
        proof {
            assert(trim(s@.skip(t as int + 1))[0] == s@[u as int]);
            assert(s@.skip(u as int).skip(1) =~= s@.skip(u as int + 1));
        }
        let w = skip_ws_at(s, u + 1);
        if w == s.len() {
            proof {
                assert(s@.skip(w as int) =~= Seq::<u8>::empty());
            }
            return Some(empty_envelope());
        } else {
            proof {
                assert(s@.skip(w as int).len() > 0);
            }
            return None;
        }
    }
    proof {
        if u < s.len() {
            assert(trim(s@.skip(t as int + 1))[0] == s@[u as int]);
        } else {
            assert(trim(s@.skip(t as int + 1)) =~= s@.skip(u as int));
        }
    }
    let mut env = empty_envelope();
    match parse_members_at(s, t + 1, &mut env) {
        Some(j) => {
            let w = skip_ws_at(s, j);
            if w == s.len() {
                proof {
                    assert(s@.skip(w as int) =~= Seq::<u8>::empty());
                }
                Some(env)
            } else {
                proof {
                    assert(s@.skip(w as int).len() > 0);
                }
                None
            }
        },
        None => None,
    }
}


// ---------------------------------------------------------------------------
// Executable classification
// ---------------------------------------------------------------------------

/// Why an inbound frame was rejected.
#[derive(PartialEq, Eq, Structural, Clone, Copy, Debug)]
pub enum DecodeError {
    /// Invalid JSON, no status word, or an unrecognized status word.
    Malformed,
}

/// An inbound frame after classification.
pub enum InboundMessage {
    /// A solicited success reply.
    Success {
        transaction: Vec<u8>,
        session_id: Option<u64>,
        sender: Option<u64>,
        data_id: Option<u64>,
        payload: Option<Vec<u8>>,
    },
    /// A solicited protocol-level rejection.
    GatewayError { transaction: Vec<u8>, code: u64, reason: Vec<u8> },
    /// A solicited acknowledgement without payload.
    Ack { transaction: Vec<u8>, session_id: Option<u64> },
    /// An unsolicited push, or any known frame that no transaction ties to a
    /// waiter.
    Event {
        janus: Vec<u8>,
        transaction: Option<Vec<u8>>,
        session_id: Option<u64>,
        handle_id: Option<u64>,
        sender: Option<u64>,
        payload: Option<Vec<u8>>,
    },
}

/// The mathematical value of a classified inbound frame.
pub open spec fn inbound_view(m: InboundMessage) -> SpecInbound {
    match m {
        InboundMessage::Success { transaction, session_id, sender, data_id, payload } =>
            SpecInbound::Success {
            transaction: transaction@,
            session_id,
            sender,
            data_id,
            payload: opt_bytes(payload),
        },
        InboundMessage::GatewayError { transaction, code, reason } => SpecInbound::GatewayError {
            transaction: transaction@,
            code,
            reason: reason@,
        },
        InboundMessage::Ack { transaction, session_id } => SpecInbound::Ack {
            transaction: transaction@,
            session_id,
        },
        InboundMessage::Event { janus, transaction, session_id, handle_id, sender, payload } =>
            SpecInbound::Event {
            janus: janus@,
            transaction: opt_bytes(transaction),
            session_id,
            handle_id,
            sender,
            payload: opt_bytes(payload),
        },
    }
}

/// The `id` carried by a captured `data` payload, if any.
fn payload_data_id(p: &Option<Vec<u8>>) -> (r: Option<u64>)
    ensures
        r == nested_id(opt_bytes(*p)),
{
    match p {
        Some(raw) => match parse_envelope(raw) {
            Some(e) => e.id,
            None => None,
        },
        None => None,
    }
}

/// The code and reason carried by a captured `error` payload; zero and empty
/// when absent.
fn error_info(p: &Option<Vec<u8>>) -> (r: (u64, Vec<u8>))
    ensures
        r.0 == nested_code(opt_bytes(*p)),
        r.1@ == nested_reason(opt_bytes(*p)),
{
    match p {
        Some(raw) => match parse_envelope(raw) {
            Some(e) => {
                let c = match e.code {
                    Some(c) => c,
                    None => 0,
                };
                let rs = match e.reason {
                    Some(rs) => rs,
                    None => Vec::new(),
                };
                (c, rs)
            },
            None => (0, Vec::new()),
        },
        None => (0, Vec::new()),
    }
}

/// Decodes one inbound frame.
///
/// A frame is a reply (success, error or ack) exactly when it carries both a
/// transaction and one of those three status words; every other frame under a
/// known status word is an event; anything else is malformed and dropped by
/// the caller.
pub fn decode(s: &Vec<u8>) -> (r: Result<InboundMessage, DecodeError>)
    ensures
        match spec_decode(s@) {
            Some(m) => r is Ok && inbound_view(r->Ok_0) == m,
            None => r == Err::<InboundMessage, DecodeError>(DecodeError::Malformed),
        },
{
    let env = match parse_envelope(s) {
        Some(e) => e,
        None => {
            return Err(DecodeError::Malformed);
        },
    };
    let Envelope { janus, transaction, session_id, handle_id, sender, id: _, code: _, reason: _, error, payload } = env;
    let j = match janus {
        Some(j) => j,
        None => {
            return Err(DecodeError::Malformed);
        },
    };
    let w_success = lit_success();
    let w_error = lit_error();
    let w_ack = lit_ack();
    let w_event = lit_event();
    let w_create = lit_create();
    let w_attach = lit_attach();
    let w_keepalive = lit_keepalive();
    let w_message = lit_message();
    let is_success = bytes_eq(&j, &w_success);
    let is_error = bytes_eq(&j, &w_error);
    let is_ack = bytes_eq(&j, &w_ack);
    let known = is_success || is_error || is_ack || bytes_eq(&j, &w_event) || bytes_eq(
        &j,
        &w_create,
    ) || bytes_eq(&j, &w_attach) || bytes_eq(&j, &w_keepalive) || bytes_eq(&j, &w_message);
    if !known {
        return Err(DecodeError::Malformed);
    }
    if is_success && transaction.is_some() {
        let t = match transaction {
            Some(t) => t,
            None => {
                return Err(DecodeError::Malformed);
            },
        };
        let data_id = payload_data_id(&payload);
        Ok(InboundMessage::Success { transaction: t, session_id, sender, data_id, payload })
    } else if is_error && transaction.is_some() {
        let t = match transaction {
            Some(t) => t,
            None => {
                return Err(DecodeError::Malformed);
            },
        };
        let (code, reason) = error_info(&error);
        Ok(InboundMessage::GatewayError { transaction: t, code, reason })
    } else if is_ack && transaction.is_some() {
        let t = match transaction {
            Some(t) => t,
            None => {
                return Err(DecodeError::Malformed);
            },
        };
        Ok(InboundMessage::Ack { transaction: t, session_id })
    } else {
        Ok(InboundMessage::Event { janus: j, transaction, session_id, handle_id, sender, payload })
    }
}

} // verus!






