//! The codec round trip: decoding a rendered command recovers the fields it
//! carried. The gateway never echoes commands back, but the law validates
//! the codec against itself, with no gateway in the loop: a rendered frame,
//! fed to the decoder, classifies as an event (its status word is a command
//! word, not a reply word) and carries the same transaction, session and
//! handle ids, and the body's exact rendering.

use vstd::prelude::*;
use crate::plain;
use crate::plain_byte;
use crate::codec::is_digit;
use crate::codec::is_prim_byte;
use crate::codec::trim;
use crate::codec::scan_string;
use crate::codec::parse_string;
use crate::codec::scan_prim;
use crate::codec::all_digits;
use crate::codec::digits_val;
use crate::codec::raw_step;
use crate::codec::raw_done;
use crate::codec::skip_raw;
use crate::codec::SpecVal;
use crate::codec::parse_value;
use crate::codec::SpecEnv;
use crate::codec::empty_env;
use crate::codec::update_env;
use crate::codec::parse_members;
use crate::codec::parse_frame;
use crate::codec::SpecInbound;
use crate::codec::known_status;
use crate::codec::spec_decode;
use crate::codec::quoted;
use crate::codec::dec_digits;
use crate::codec::num_member;
use crate::codec::SpecBodyVal;
use crate::codec::SpecBodyField;
use crate::codec::render_body_val;
use crate::codec::render_member;
use crate::codec::render_members_from;
use crate::codec::render_body;
use crate::codec::SpecCommand;
use crate::codec::spec_frame;
use crate::codec::k_janus;
use crate::codec::k_apisecret;
use crate::codec::k_plugin;
use crate::codec::k_transaction;
use crate::codec::k_session_id;
use crate::codec::k_handle_id;
use crate::codec::k_body;
use crate::codec::k_create;
use crate::codec::k_attach;
use crate::codec::k_keepalive;
use crate::codec::k_message;
use crate::codec::k_success;
use crate::codec::k_error;
use crate::codec::k_ack;

verus! {

// ---------------------------------------------------------------------------
// Strings
// ---------------------------------------------------------------------------

/// Scanning a plain body up to its closing quote finds exactly it.
proof fn lemma_scan_plain(t: Seq<u8>, rest: Seq<u8>)
    requires
        plain(t),
    ensures
        scan_string(t + seq![0x22u8] + rest) == Some((t, rest)),
    decreases t.len(),
{
    let s = t + seq![0x22u8] + rest;
    if t.len() == 0 {
        assert(s[0] == 0x22);
        assert(s.skip(1) =~= rest);
        assert(t =~= Seq::<u8>::empty());
    } else {
        assert(s[0] == t[0]);
        assert(plain_byte(t[0]));
        lemma_scan_plain(t.skip(1), rest);
        assert(s.skip(1) =~= t.skip(1) + seq![0x22u8] + rest);
        assert(seq![t[0]] + t.skip(1) =~= t);
    }
}

/// Parsing a quoted plain string recovers it.
proof fn lemma_parse_quoted(t: Seq<u8>, rest: Seq<u8>)
    requires
        plain(t),
    ensures
        parse_string(quoted(t) + rest) == Some((t, rest)),
{
    let s = quoted(t) + rest;
    assert(s[0] == 0x22);
    assert(s.skip(1) =~= t + seq![0x22u8] + rest);
    lemma_scan_plain(t, rest);
}

// ---------------------------------------------------------------------------
// Numbers
// ---------------------------------------------------------------------------

/// The digits of a number are digits.
proof fn lemma_dec_digits_shape(n: u64)
    ensures
        dec_digits(n).len() >= 1,
        all_digits(dec_digits(n)),
    decreases n,
{
    if n >= 10 {
        vstd::arithmetic::div_mod::lemma_div_is_strictly_smaller(n as int, 10);
        lemma_dec_digits_shape(n / 10);
        let d = dec_digits(n);
        let p = dec_digits(n / 10);
        assert forall|i: int| 0 <= i < d.len() implies is_digit(d[i]) by {
            if i < p.len() {
                assert(d[i] == p[i]);
            }
        }
    }
}

/// A digit run followed by a structural byte scans as exactly the run.
proof fn lemma_scan_prim_exact(t: Seq<u8>, rest: Seq<u8>)
    requires
        forall|i: int| 0 <= i < t.len() ==> is_prim_byte(#[trigger] t[i]),
        rest.len() == 0 || !is_prim_byte(rest[0]),
    ensures
        scan_prim(t + rest) == (t, rest),
    decreases t.len(),
{
    let s = t + rest;
    if t.len() == 0 {
        assert(s =~= rest);
        assert(t =~= Seq::<u8>::empty());
    } else {
        assert(s[0] == t[0]);
        lemma_scan_prim_exact(t.skip(1), rest);
        assert(s.skip(1) =~= t.skip(1) + rest);
        assert(seq![t[0]] + t.skip(1) =~= t);
    }
}

/// Reading the digits of `n` back gives `n`.
proof fn lemma_digits_val_inv(n: u64)
    ensures
        digits_val(dec_digits(n)) == n,
    decreases n,
{
    if n < 10 {
        let d = dec_digits(n);
        assert(d.drop_last() =~= Seq::<u8>::empty());
        assert(digits_val(Seq::<u8>::empty()) == 0);
    } else {
        vstd::arithmetic::div_mod::lemma_div_is_strictly_smaller(n as int, 10);
        vstd::arithmetic::div_mod::lemma_fundamental_div_mod(n as int, 10);
        lemma_digits_val_inv(n / 10);
        let d = dec_digits(n);
        assert(d.drop_last() =~= dec_digits(n / 10));
        assert(d.last() == (0x30 + (n % 10)) as u8);
        assert(digits_val(d) == digits_val(dec_digits(n / 10)) * 10 + (n % 10));
    }
}

// ---------------------------------------------------------------------------
// Values
// ---------------------------------------------------------------------------

/// A structural byte that can follow a value.
spec fn ends_value(b: u8) -> bool {
    b == 0x2c || b == 0x7d
}

/// A quoted plain string parses as a text value.
proof fn lemma_value_text(t: Seq<u8>, rest: Seq<u8>)
    requires
        plain(t),
    ensures
        parse_value(quoted(t) + rest) == Some((SpecVal::Text(t), rest)),
{
    let s = quoted(t) + rest;
    assert(s[0] == 0x22);
    assert(trim(s) == s);
    lemma_parse_quoted(t, rest);
}

/// A rendered number parses as that number.
proof fn lemma_value_num(n: u64, rest: Seq<u8>)
    requires
        rest.len() > 0 && ends_value(rest[0]),
    ensures
        parse_value(dec_digits(n) + rest) == Some((SpecVal::Num(n), rest)),
{
    let s = dec_digits(n) + rest;
    lemma_dec_digits_shape(n);
    assert(s[0] == dec_digits(n)[0]);
    assert(is_digit(s[0]));
    assert(trim(s) == s);
    assert(s[0] != 0x22 && s[0] != 0x7b && s[0] != 0x5b);
    assert forall|i: int| 0 <= i < dec_digits(n).len() implies is_prim_byte(
        #[trigger] dec_digits(n)[i],
    ) by {
        assert(is_digit(dec_digits(n)[i]));
    }
    lemma_scan_prim_exact(dec_digits(n), rest);
    lemma_digits_val_inv(n);
}


// ---------------------------------------------------------------------------
// One member at a time
// ---------------------------------------------------------------------------

/// Parsing one rendered `"key":value` member records it in the envelope and
/// moves past the separator.
proof fn lemma_member_step(k: Seq<u8>, vt: Seq<u8>, gv: SpecVal, rest2: Seq<u8>, env: SpecEnv)
    requires
        plain(k),
        parse_value(vt + rest2) == Some((gv, rest2)),
        rest2.len() > 0,
        rest2[0] == 0x2c || rest2[0] == 0x7d,
    ensures
        parse_members(quoted(k) + seq![0x3au8] + vt + rest2, env) == (if rest2[0] == 0x2c {
            parse_members(rest2.skip(1), update_env(env, k, gv))
        } else {
            Some((update_env(env, k, gv), rest2.skip(1)))
        }),
{
    let s = quoted(k) + seq![0x3au8] + vt + rest2;
    assert(s[0] == 0x22);
    assert(trim(s) == s);
    let r1 = seq![0x3au8] + (vt + rest2);
    assert(s =~= quoted(k) + r1);
    lemma_parse_quoted(k, r1);
    assert(parse_string(s) == Some((k, r1)));
    assert(r1[0] == 0x3a);
    assert(trim(r1) == r1);
    assert(r1.skip(1) =~= vt + rest2);
    assert(trim(rest2) == rest2);
}

/// The upper frame: one object whose members fill the envelope.
proof fn lemma_frame_shell(body: Seq<u8>, env: SpecEnv)
    requires
        body.len() > 0,
        body[0] == 0x22,
        parse_members(body, empty_env()) == Some((env, Seq::<u8>::empty())),
    ensures
        parse_frame(seq![0x7bu8] + body) == Some(env),
{
    let s = seq![0x7bu8] + body;
    assert(s[0] == 0x7b);
    assert(trim(s) == s);
    assert(s.skip(1) =~= body);
    assert(trim(body) == body);
    assert(trim(Seq::<u8>::empty()).len() == 0);
}

// ---------------------------------------------------------------------------
// The round trip for each command the engine issues
// ---------------------------------------------------------------------------

/// Decoding the rendered keepalive command recovers its transaction and
/// session id: it classifies as an event under the keepalive word.
#[verifier::rlimit(100)]
#[verifier::spinoff_prover]
pub proof fn lemma_roundtrip_keepalive(secret: Option<Seq<u8>>, tok: Seq<u8>, sid: u64)
    requires
        plain(tok),
        match secret {
            Some(s) => plain(s),
            None => true,
        },
    ensures
        spec_decode(
            spec_frame(crate::engine::keepalive_cmd(secret, tok, sid)),
        ) == Some(
            SpecInbound::Event {
                janus: k_keepalive(),
                transaction: Some(tok),
                session_id: Some(sid),
                handle_id: None,
                sender: None,
                payload: None,
            },
        ),
{
    let c = crate::engine::keepalive_cmd(secret, tok, sid);
    let m_sid = num_member(k_session_id(), sid) + seq![0x7du8];
    let m_tx = quoted(k_transaction()) + seq![0x3au8] + quoted(tok) + (seq![0x2cu8] + m_sid);
    let tail = match secret {
        Some(sec) => quoted(k_apisecret()) + seq![0x3au8] + quoted(sec) + (seq![0x2cu8] + m_tx),
        None => m_tx,
    };
    let body = quoted(k_janus()) + seq![0x3au8] + quoted(k_keepalive()) + (seq![0x2cu8] + tail);
    assert(spec_frame(c) =~= seq![0x7bu8] + body);
    let e1 = update_env(empty_env(), k_janus(), SpecVal::Text(k_keepalive()));
    let rest_j = seq![0x2cu8] + tail;
    lemma_value_text(k_keepalive(), rest_j);
    lemma_member_step(k_janus(), quoted(k_keepalive()), SpecVal::Text(k_keepalive()), rest_j, empty_env());
    assert(rest_j.skip(1) =~= tail);
    match secret {
        Some(sec) => {
            let rest_s = seq![0x2cu8] + m_tx;
            lemma_value_text(sec, rest_s);
            lemma_member_step(k_apisecret(), quoted(sec), SpecVal::Text(sec), rest_s, e1);
            assert(rest_s.skip(1) =~= m_tx);
        },
        None => {},
    }
    let e2 = match secret {
        Some(sec) => update_env(e1, k_apisecret(), SpecVal::Text(sec)),
        None => e1,
    };
    assert(parse_members(tail, e1) == parse_members(m_tx, e2));
    let rest_t = seq![0x2cu8] + m_sid;
    lemma_value_text(tok, rest_t);
    lemma_member_step(k_transaction(), quoted(tok), SpecVal::Text(tok), rest_t, e2);
    assert(rest_t.skip(1) =~= m_sid);
    let e3 = update_env(e2, k_transaction(), SpecVal::Text(tok));
    let rest_d = seq![0x7du8];
    assert(m_sid =~= quoted(k_session_id()) + seq![0x3au8] + dec_digits(sid) + rest_d);
    lemma_value_num(sid, rest_d);
    lemma_member_step(k_session_id(), dec_digits(sid), SpecVal::Num(sid), rest_d, e3);
    let e4 = update_env(e3, k_session_id(), SpecVal::Num(sid));
    assert(rest_d.skip(1) =~= Seq::<u8>::empty());
    assert(parse_members(body, empty_env()) == Some((e4, Seq::<u8>::empty())));
    assert(body[0] == 0x22);
    lemma_frame_shell(body, e4);
    assert(parse_frame(spec_frame(c)) == Some(e4));
    assert(e4.janus == Some(k_keepalive()));
    assert(e4.transaction == Some(tok));
    assert(e4.session_id == Some(sid));
    assert(e4.handle_id is None && e4.payload is None && e4.sender is None);
    assert(known_status(k_keepalive()));
    assert(k_keepalive() != k_success() && k_keepalive() != k_error() && k_keepalive() != k_ack());
}


/// Decoding the rendered create-session command recovers its transaction: it
/// classifies as an event under the create word.
#[verifier::rlimit(100)]
#[verifier::spinoff_prover]
pub proof fn lemma_roundtrip_create(secret: Option<Seq<u8>>, tok: Seq<u8>)
    requires
        plain(tok),
        match secret {
            Some(s) => plain(s),
            None => true,
        },
    ensures
        spec_decode(spec_frame(crate::engine::create_cmd(secret, tok))) == Some(
            SpecInbound::Event {
                janus: k_create(),
                transaction: Some(tok),
                session_id: None,
                handle_id: None,
                sender: None,
                payload: None,
            },
        ),
{
    let c = crate::engine::create_cmd(secret, tok);
    let m_tx = quoted(k_transaction()) + seq![0x3au8] + quoted(tok) + seq![0x7du8];
    let tail = match secret {
        Some(sec) => quoted(k_apisecret()) + seq![0x3au8] + quoted(sec) + (seq![0x2cu8] + m_tx),
        None => m_tx,
    };
    let body = quoted(k_janus()) + seq![0x3au8] + quoted(k_create()) + (seq![0x2cu8] + tail);
    assert(spec_frame(c) =~= seq![0x7bu8] + body);
    let e1 = update_env(empty_env(), k_janus(), SpecVal::Text(k_create()));
    let rest_j = seq![0x2cu8] + tail;
    lemma_value_text(k_create(), rest_j);
    lemma_member_step(k_janus(), quoted(k_create()), SpecVal::Text(k_create()), rest_j, empty_env());
    assert(rest_j.skip(1) =~= tail);
    match secret {
        Some(sec) => {
            let rest_s = seq![0x2cu8] + m_tx;
            lemma_value_text(sec, rest_s);
            lemma_member_step(k_apisecret(), quoted(sec), SpecVal::Text(sec), rest_s, e1);
            assert(rest_s.skip(1) =~= m_tx);
        },
        None => {},
    }
    let e2 = match secret {
        Some(sec) => update_env(e1, k_apisecret(), SpecVal::Text(sec)),
        None => e1,
    };
    assert(parse_members(tail, e1) == parse_members(m_tx, e2));
    let rest_t = seq![0x7du8];
    lemma_value_text(tok, rest_t);
    lemma_member_step(k_transaction(), quoted(tok), SpecVal::Text(tok), rest_t, e2);
    let e3 = update_env(e2, k_transaction(), SpecVal::Text(tok));
    assert(rest_t.skip(1) =~= Seq::<u8>::empty());
    assert(parse_members(body, empty_env()) == Some((e3, Seq::<u8>::empty())));
    assert(body[0] == 0x22);
    lemma_frame_shell(body, e3);
    assert(e3.janus == Some(k_create()));
    assert(e3.transaction == Some(tok));
    assert(e3.session_id is None && e3.handle_id is None && e3.payload is None && e3.sender
        is None);
    assert(known_status(k_create()));
    assert(k_create() != k_success() && k_create() != k_error() && k_create() != k_ack());
}

/// Decoding the rendered attach-handle command recovers its transaction and
/// session id: it classifies as an event under the attach word.
#[verifier::rlimit(100)]
#[verifier::spinoff_prover]
pub proof fn lemma_roundtrip_attach(
    secret: Option<Seq<u8>>,
    plugin: Seq<u8>,
    tok: Seq<u8>,
    sid: u64,
)
    requires
        plain(tok),
        plain(plugin),
        match secret {
            Some(s) => plain(s),
            None => true,
        },
    ensures
        spec_decode(spec_frame(crate::engine::attach_cmd(secret, plugin, tok, sid))) == Some(
            SpecInbound::Event {
                janus: k_attach(),
                transaction: Some(tok),
                session_id: Some(sid),
                handle_id: None,
                sender: None,
                payload: None,
            },
        ),
{
    let c = crate::engine::attach_cmd(secret, plugin, tok, sid);
    let m_sid = num_member(k_session_id(), sid) + seq![0x7du8];
    let m_tx = quoted(k_transaction()) + seq![0x3au8] + quoted(tok) + (seq![0x2cu8] + m_sid);
    let m_pl = quoted(k_plugin()) + seq![0x3au8] + quoted(plugin) + (seq![0x2cu8] + m_tx);
    let tail = match secret {
        Some(sec) => quoted(k_apisecret()) + seq![0x3au8] + quoted(sec) + (seq![0x2cu8] + m_pl),
        None => m_pl,
    };
    let body = quoted(k_janus()) + seq![0x3au8] + quoted(k_attach()) + (seq![0x2cu8] + tail);
    assert(spec_frame(c) =~= seq![0x7bu8] + body);
    let e1 = update_env(empty_env(), k_janus(), SpecVal::Text(k_attach()));
    let rest_j = seq![0x2cu8] + tail;
    lemma_value_text(k_attach(), rest_j);
    lemma_member_step(k_janus(), quoted(k_attach()), SpecVal::Text(k_attach()), rest_j, empty_env());
    assert(rest_j.skip(1) =~= tail);
    match secret {
        Some(sec) => {
            let rest_s = seq![0x2cu8] + m_pl;
            lemma_value_text(sec, rest_s);
            lemma_member_step(k_apisecret(), quoted(sec), SpecVal::Text(sec), rest_s, e1);
            assert(rest_s.skip(1) =~= m_pl);
        },
        None => {},
    }
    let e2 = match secret {
        Some(sec) => update_env(e1, k_apisecret(), SpecVal::Text(sec)),
        None => e1,
    };
    assert(parse_members(tail, e1) == parse_members(m_pl, e2));
    let rest_p = seq![0x2cu8] + m_tx;
    lemma_value_text(plugin, rest_p);
    lemma_member_step(k_plugin(), quoted(plugin), SpecVal::Text(plugin), rest_p, e2);
    assert(rest_p.skip(1) =~= m_tx);
    let e3 = update_env(e2, k_plugin(), SpecVal::Text(plugin));
    let rest_t = seq![0x2cu8] + m_sid;
    lemma_value_text(tok, rest_t);
    lemma_member_step(k_transaction(), quoted(tok), SpecVal::Text(tok), rest_t, e3);
    assert(rest_t.skip(1) =~= m_sid);
    let e4 = update_env(e3, k_transaction(), SpecVal::Text(tok));
    let rest_d = seq![0x7du8];
    assert(m_sid =~= quoted(k_session_id()) + seq![0x3au8] + dec_digits(sid) + rest_d);
    lemma_value_num(sid, rest_d);
    lemma_member_step(k_session_id(), dec_digits(sid), SpecVal::Num(sid), rest_d, e4);
    let e5 = update_env(e4, k_session_id(), SpecVal::Num(sid));
    assert(rest_d.skip(1) =~= Seq::<u8>::empty());
    assert(parse_members(body, empty_env()) == Some((e5, Seq::<u8>::empty())));
    assert(body[0] == 0x22);
    lemma_frame_shell(body, e5);
    assert(e5.janus == Some(k_attach()));
    assert(e5.transaction == Some(tok));
    assert(e5.session_id == Some(sid));
    assert(e5.handle_id is None && e5.payload is None && e5.sender is None);
    assert(known_status(k_attach()));
    assert(k_attach() != k_success() && k_attach() != k_error() && k_attach() != k_ack());
}


// ---------------------------------------------------------------------------
// Skipping a rendered body
// ---------------------------------------------------------------------------

/// The skipper's state after a run of bytes.
spec fn raw_run(st: (nat, bool, bool), t: Seq<u8>) -> (nat, bool, bool)
    decreases t.len(),
{
    if t.len() == 0 {
        st
    } else {
        raw_run(raw_step(st, t[0]), t.skip(1))
    }
}

/// The skipper never closes strictly within the run.
spec fn raw_clean(st: (nat, bool, bool), t: Seq<u8>) -> bool
    decreases t.len(),
{
    t.len() == 0 || (!raw_done(raw_step(st, t[0])) && raw_clean(raw_step(st, t[0]), t.skip(1)))
}

/// Skipping runs through a clean prefix and goes on behind it.
proof fn lemma_skip_concat(st: (nat, bool, bool), t: Seq<u8>, rest: Seq<u8>)
    requires
        raw_clean(st, t),
    ensures
        skip_raw(t + rest, st) == (match skip_raw(rest, raw_run(st, t)) {
            Some(n) => Some((n + t.len()) as nat),
            None => None::<nat>,
        }),
    decreases t.len(),
{
    if t.len() == 0 {
        assert(t + rest =~= rest);
    } else {
        let s = t + rest;
        assert(s[0] == t[0]);
        lemma_skip_concat(raw_step(st, t[0]), t.skip(1), rest);
        assert(s.skip(1) =~= t.skip(1) + rest);
    }
}

/// Cleanliness and the run state compose over concatenation.
proof fn lemma_clean_concat(st: (nat, bool, bool), a: Seq<u8>, b: Seq<u8>)
    requires
        raw_clean(st, a),
        raw_clean(raw_run(st, a), b),
    ensures
        raw_clean(st, a + b),
        raw_run(st, a + b) == raw_run(raw_run(st, a), b),
    decreases a.len(),
{
    if a.len() == 0 {
        assert(a + b =~= b);
    } else {
        let s = a + b;
        assert(s[0] == a[0]);
        lemma_clean_concat(raw_step(st, a[0]), a.skip(1), b);
        assert(s.skip(1) =~= a.skip(1) + b);
    }
}

/// A byte with no structural meaning outside a string.
spec fn neutral(b: u8) -> bool {
    b != 0x22 && b != 0x7b && b != 0x7d && b != 0x5b && b != 0x5d
}

/// Neutral bytes at positive depth change nothing.
proof fn lemma_raw_neutral(t: Seq<u8>, d: nat)
    requires
        d >= 1,
        forall|i: int| 0 <= i < t.len() ==> neutral(#[trigger] t[i]),
    ensures
        raw_clean((d, false, false), t),
        raw_run((d, false, false), t) == (d, false, false),
    decreases t.len(),
{
    if t.len() > 0 {
        assert(raw_step((d, false, false), t[0]) == (d, false, false));
        lemma_raw_neutral(t.skip(1), d);
    }
}

/// Plain bytes inside a string change nothing but stay inside it.
proof fn lemma_raw_in_string(t: Seq<u8>, d: nat)
    requires
        plain(t),
    ensures
        raw_clean((d, true, false), t),
        raw_run((d, true, false), t) == (d, true, false),
    decreases t.len(),
{
    if t.len() > 0 {
        assert(plain_byte(t[0]));
        assert(raw_step((d, true, false), t[0]) == (d, true, false));
        lemma_raw_in_string(t.skip(1), d);
    }
}

/// A quoted plain string at positive depth is skipped whole.
proof fn lemma_raw_quoted(t: Seq<u8>, d: nat)
    requires
        d >= 1,
        plain(t),
    ensures
        raw_clean((d, false, false), quoted(t)),
        raw_run((d, false, false), quoted(t)) == (d, false, false),
{
    let q = seq![0x22u8];
    let st0 = (d, false, false);
    let st1 = (d, true, false);
    assert(raw_step(st0, 0x22) == st1);
    assert(raw_clean(st0, q) && raw_run(st0, q) == st1) by {
        assert(q.skip(1) =~= Seq::<u8>::empty());
        assert(raw_clean(st1, Seq::<u8>::empty()));
        assert(raw_run(st1, Seq::<u8>::empty()) == st1);
    }
    lemma_raw_in_string(t, d);
    assert(raw_step(st1, 0x22) == st0);
    assert(raw_clean(st1, q) && raw_run(st1, q) == st0) by {
        assert(q.skip(1) =~= Seq::<u8>::empty());
        assert(raw_clean(st0, Seq::<u8>::empty()));
        assert(raw_run(st0, Seq::<u8>::empty()) == st0);
    }
    lemma_clean_concat(st1, t, q);
    lemma_clean_concat(st0, q, t + q);
    assert(quoted(t) =~= q + (t + q));
}

/// Body fields whose texts are plain.
pub open spec fn fields_wf(fs: Seq<SpecBodyField>) -> bool {
    forall|i: int|
        0 <= i < fs.len() ==> plain((#[trigger] fs[i]).key) && match fs[i].val {
            SpecBodyVal::Text(t) => plain(t),
            SpecBodyVal::Num(_) => true,
        }
}

/// One rendered member at positive depth is skipped whole.
proof fn lemma_raw_member(f: SpecBodyField, d: nat)
    requires
        d >= 1,
        plain(f.key),
        match f.val {
            SpecBodyVal::Text(t) => plain(t),
            SpecBodyVal::Num(_) => true,
        },
    ensures
        raw_clean((d, false, false), render_member(f)),
        raw_run((d, false, false), render_member(f)) == (d, false, false),
{
    let st0 = (d, false, false);
    let colon = seq![0x3au8];
    lemma_raw_quoted(f.key, d);
    lemma_raw_neutral(colon, d);
    match f.val {
        SpecBodyVal::Text(t) => {
            lemma_raw_quoted(t, d);
        },
        SpecBodyVal::Num(n) => {
            lemma_dec_digits_shape(n);
            assert forall|i: int| 0 <= i < dec_digits(n).len() implies neutral(
                #[trigger] dec_digits(n)[i],
            ) by {
                assert(is_digit(dec_digits(n)[i]));
            }
            lemma_raw_neutral(dec_digits(n), d);
        },
    }
    lemma_clean_concat(st0, colon, render_body_val(f.val));
    lemma_clean_concat(st0, quoted(f.key), colon + render_body_val(f.val));
    assert(render_member(f) =~= quoted(f.key) + (colon + render_body_val(f.val)));
}

/// The rendered members at positive depth are skipped whole.
proof fn lemma_raw_members(fs: Seq<SpecBodyField>, i: int, d: nat)
    requires
        d >= 1,
        fields_wf(fs),
    ensures
        raw_clean((d, false, false), render_members_from(fs, i)),
        raw_run((d, false, false), render_members_from(fs, i)) == (d, false, false),
    decreases fs.len() - i,
{
    let st0 = (d, false, false);
    if i < 0 || i >= fs.len() {
    } else if i == fs.len() - 1 {
        lemma_raw_member(fs[i], d);
    } else {
        lemma_raw_member(fs[i], d);
        lemma_raw_members(fs, i + 1, d);
        let comma = seq![0x2cu8];
        lemma_raw_neutral(comma, d);
        lemma_clean_concat(st0, comma, render_members_from(fs, i + 1));
        lemma_clean_concat(st0, render_member(fs[i]), comma + render_members_from(fs, i + 1));
        assert(render_members_from(fs, i) =~= render_member(fs[i]) + (comma
            + render_members_from(fs, i + 1)));
    }
}

/// A rendered body parses as its own raw span.
proof fn lemma_value_body(fs: Seq<SpecBodyField>, rest: Seq<u8>)
    requires
        fields_wf(fs),
    ensures
        parse_value(render_body(fs) + rest) == Some((SpecVal::Raw(render_body(fs)), rest)),
{
    let b = render_body(fs);
    let m = render_members_from(fs, 0);
    let s = b + rest;
    assert(s[0] == 0x7b);
    assert(trim(s) == s);
    let st1 = (1nat, false, false);
    assert(raw_step((0, false, false), 0x7b) == st1);
    assert(!raw_done(st1));
    assert(s.skip(1) =~= m + (seq![0x7du8] + rest));
    lemma_raw_members(fs, 0, 1);
    lemma_skip_concat(st1, m, seq![0x7du8] + rest);
    let close = seq![0x7du8] + rest;
    assert(close[0] == 0x7d);
    assert(raw_step(st1, 0x7d) == (0nat, false, false));
    assert(raw_done((0nat, false, false)));
    assert(skip_raw(close, st1) == Some(1nat));
    assert(skip_raw(s, (0, false, false)) == Some((m.len() + 2) as nat));
    assert(b.len() == m.len() + 2);
    assert(s.take((m.len() + 2) as int) =~= b);
    assert(s.skip((m.len() + 2) as int) =~= rest);
}

/// The rendered tail of a plugin-message frame: transaction, session and
/// handle ids, and the body, closing the object.
spec fn message_tail(tok: Seq<u8>, sid: u64, hid: u64, fs: Seq<SpecBodyField>) -> Seq<u8> {
    let m_bd = quoted(k_body()) + seq![0x3au8] + render_body(fs) + seq![0x7du8];
    let m_hid = quoted(k_handle_id()) + seq![0x3au8] + dec_digits(hid) + (seq![0x2cu8] + m_bd);
    let m_sid = quoted(k_session_id()) + seq![0x3au8] + dec_digits(sid) + (seq![0x2cu8] + m_hid);
    quoted(k_transaction()) + seq![0x3au8] + quoted(tok) + (seq![0x2cu8] + m_sid)
}

/// The envelope after the tail's members.
spec fn message_tail_env(
    env: SpecEnv,
    tok: Seq<u8>,
    sid: u64,
    hid: u64,
    fs: Seq<SpecBodyField>,
) -> SpecEnv {
    let e3 = update_env(env, k_transaction(), SpecVal::Text(tok));
    let e4 = update_env(e3, k_session_id(), SpecVal::Num(sid));
    let e5 = update_env(e4, k_handle_id(), SpecVal::Num(hid));
    update_env(e5, k_body(), SpecVal::Raw(render_body(fs)))
}

/// Parsing the tail records its four members and closes the object.
#[verifier::rlimit(100)]
#[verifier::spinoff_prover]
proof fn lemma_message_tail(tok: Seq<u8>, sid: u64, hid: u64, fs: Seq<SpecBodyField>, env: SpecEnv)
    requires
        plain(tok),
        fields_wf(fs),
    ensures
        parse_members(message_tail(tok, sid, hid, fs), env) == Some(
            (message_tail_env(env, tok, sid, hid, fs), Seq::<u8>::empty()),
        ),
{
    let m_bd = quoted(k_body()) + seq![0x3au8] + render_body(fs) + seq![0x7du8];
    let m_hid = quoted(k_handle_id()) + seq![0x3au8] + dec_digits(hid) + (seq![0x2cu8] + m_bd);
    let m_sid = quoted(k_session_id()) + seq![0x3au8] + dec_digits(sid) + (seq![0x2cu8] + m_hid);
    let rest_t = seq![0x2cu8] + m_sid;
    lemma_value_text(tok, rest_t);
    lemma_member_step(k_transaction(), quoted(tok), SpecVal::Text(tok), rest_t, env);
    assert(rest_t.skip(1) =~= m_sid);
    let e3 = update_env(env, k_transaction(), SpecVal::Text(tok));
    let rest_si = seq![0x2cu8] + m_hid;
    lemma_value_num(sid, rest_si);
    lemma_member_step(k_session_id(), dec_digits(sid), SpecVal::Num(sid), rest_si, e3);
    assert(rest_si.skip(1) =~= m_hid);
    let e4 = update_env(e3, k_session_id(), SpecVal::Num(sid));
    let rest_hi = seq![0x2cu8] + m_bd;
    lemma_value_num(hid, rest_hi);
    lemma_member_step(k_handle_id(), dec_digits(hid), SpecVal::Num(hid), rest_hi, e4);
    assert(rest_hi.skip(1) =~= m_bd);
    let e5 = update_env(e4, k_handle_id(), SpecVal::Num(hid));
    let rest_b = seq![0x7du8];
    lemma_value_body(fs, rest_b);
    lemma_member_step(k_body(), render_body(fs), SpecVal::Raw(render_body(fs)), rest_b, e5);
    assert(rest_b.skip(1) =~= Seq::<u8>::empty());
}

/// Decoding the rendered plugin-message command recovers its transaction,
/// session and handle ids, and its body's exact rendering: it classifies as
/// an event under the message word.
#[verifier::rlimit(100)]
#[verifier::spinoff_prover]
pub proof fn lemma_roundtrip_message(
    secret: Option<Seq<u8>>,
    tok: Seq<u8>,
    sid: u64,
    hid: u64,
    fs: Seq<SpecBodyField>,
)
    requires
        plain(tok),
        fields_wf(fs),
        match secret {
            Some(s) => plain(s),
            None => true,
        },
    ensures
        spec_decode(spec_frame(crate::engine::message_cmd(secret, tok, sid, hid, fs))) == Some(
            SpecInbound::Event {
                janus: k_message(),
                transaction: Some(tok),
                session_id: Some(sid),
                handle_id: Some(hid),
                sender: None,
                payload: Some(render_body(fs)),
            },
        ),
{
    let c = crate::engine::message_cmd(secret, tok, sid, hid, fs);
    let m_tx = message_tail(tok, sid, hid, fs);
    let tail = match secret {
        Some(sec) => quoted(k_apisecret()) + seq![0x3au8] + quoted(sec) + (seq![0x2cu8] + m_tx),
        None => m_tx,
    };
    let body = quoted(k_janus()) + seq![0x3au8] + quoted(k_message()) + (seq![0x2cu8] + tail);
    assert(spec_frame(c) =~= seq![0x7bu8] + body);
    let e1 = update_env(empty_env(), k_janus(), SpecVal::Text(k_message()));
    let rest_j = seq![0x2cu8] + tail;
    lemma_value_text(k_message(), rest_j);
    lemma_member_step(k_janus(), quoted(k_message()), SpecVal::Text(k_message()), rest_j, empty_env());
    assert(rest_j.skip(1) =~= tail);
    match secret {
        Some(sec) => {
            let rest_s = seq![0x2cu8] + m_tx;
            lemma_value_text(sec, rest_s);
            lemma_member_step(k_apisecret(), quoted(sec), SpecVal::Text(sec), rest_s, e1);
            assert(rest_s.skip(1) =~= m_tx);
        },
        None => {},
    }
    let e2 = match secret {
        Some(sec) => update_env(e1, k_apisecret(), SpecVal::Text(sec)),
        None => e1,
    };
    assert(parse_members(tail, e1) == parse_members(m_tx, e2));
    lemma_message_tail(tok, sid, hid, fs, e2);
    let e6 = message_tail_env(e2, tok, sid, hid, fs);
    assert(parse_members(body, empty_env()) == Some((e6, Seq::<u8>::empty())));
    assert(body[0] == 0x22);
    lemma_frame_shell(body, e6);
    assert(e6.janus == Some(k_message()));
    assert(e6.transaction == Some(tok));
    assert(e6.session_id == Some(sid));
    assert(e6.handle_id == Some(hid));
    assert(e6.payload == Some(render_body(fs)));
    assert(e6.sender is None);
    assert(known_status(k_message()));
    assert(k_message() != k_success() && k_message() != k_error() && k_message() != k_ack());
}

} // verus!
