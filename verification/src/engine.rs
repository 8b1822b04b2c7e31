//! The gateway client engine: connection lifecycle, transaction correlation
//! and the command surface, as pure state transitions.
//!
//! The engine owns no socket. A driver outside the library opens the link,
//! writes the frames these functions hand back, feeds every inbound frame and
//! timer event in, and performs the actions the engine decides: so every
//! decision — what to send, which waiter a reply resolves, when to reconnect
//! and with what delay — stands here, verified, and the driver stays a thin
//! loop.

use vstd::prelude::*;
use crate::codec::Command;
use crate::codec::CommandKind;
use crate::codec::BodyField;
use crate::codec::BodyVal;
use crate::codec::SpecCommand;
use crate::codec::SpecBodyField;
use crate::codec::SpecBodyVal;
use crate::codec::spec_frame;
use crate::codec::cmd_view;
use crate::codec::dec_digits;
use crate::codec::opt_bytes;
use crate::codec::body_view;
use crate::codec::encode;
use crate::codec::copy_bytes;
use crate::codec::lit_request;
use crate::codec::lit_create;
use crate::codec::lit_room;
use crate::codec::lit_admin_key;
use crate::codec::lit_secret;
use crate::codec::lit_kick;
use crate::codec::lit_id;
use crate::codec::k_request;
use crate::codec::k_create;
use crate::codec::k_room;
use crate::codec::k_admin_key;
use crate::codec::k_secret;
use crate::codec::k_kick;
use crate::codec::k_id;
use crate::registry::Registry;
use crate::registry::Waiter;
use crate::registry::SpecWaiter;
use crate::registry::waiter_view;
use crate::registry::has_token;

verus! {

/// The connection lifecycle.
#[derive(PartialEq, Eq, Structural, Clone, Copy, Debug)]
pub enum ConnState {
    /// No link; the initial state, and the state after any loss.
    Disconnected,
    /// A link is being opened.
    Connecting,
    /// The link is open; session and handle creation are in flight.
    Bootstrapping,
    /// Serving traffic.
    Connected,
    /// Shut down for good.
    Stopped,
}

/// Startup configuration. Times are milliseconds.
pub struct Config {
    /// Shared secret sent with every command, if the gateway demands one.
    pub secret: Option<Vec<u8>>,
    /// The plugin to attach the bootstrap handle to.
    pub plugin: Vec<u8>,
    /// Key that room creation must carry, if the gateway demands one.
    pub admin_key: Option<Vec<u8>>,
    /// Room secret that kicking must carry, if the room demands one.
    pub room_secret: Option<Vec<u8>>,
    /// How long the keepalive timer sleeps between beats.
    pub keepalive_interval: u64,
    /// How long a caller waits for a reply.
    pub request_timeout: u64,
    /// Smallest and largest reconnect delay.
    pub backoff_min: u64,
    pub backoff_max: u64,
}

/// Every text a config feeds into frames must stand plain between quotes.
pub open spec fn config_wf(c: Config) -> bool {
    &&& match c.secret {
        Some(s) => crate::plain(s@),
        None => true,
    }
    &&& crate::plain(c.plugin@)
    &&& match c.admin_key {
        Some(s) => crate::plain(s@),
        None => true,
    }
    &&& match c.room_secret {
        Some(s) => crate::plain(s@),
        None => true,
    }
}

/// What a dispatcher call can fail with before any frame is written, and
/// what a pending call can resolve to.
#[derive(Debug, Clone)]
pub enum EngineError {
    /// No active link, and no queuing policy: the caller retries later.
    NotConnected,
    /// The deadline elapsed before the reply came.
    Timeout,
    /// The gateway rejected the command.
    GatewayError { code: u64, reason: Vec<u8> },
    /// The link dropped, and the epoch was invalidated, before the reply.
    ConnectionLost,
    /// The engine is stopping.
    Shutdown,
    /// The token was already live: fatal to this request only.
    DuplicateToken,
}

/// What a resolved waiter carries back to its caller.
#[derive(Debug, Clone)]
pub enum Outcome {
    /// A success reply: the created id when the payload carried one, the
    /// payload verbatim, and the replying handle.
    Success { data_id: Option<u64>, payload: Option<Vec<u8>>, sender: Option<u64> },
    /// An acknowledgement without payload.
    Acked,
    /// A terminal failure.
    Failed(EngineError),
}

/// One issued command: the fresh token its reply will carry, and the frame
/// to write to the socket.
pub struct Issued {
    pub token: Vec<u8>,
    pub frame: Vec<u8>,
}

/// The engine.
pub struct Engine {
    pub state: ConnState,
    /// Monotonic count of successful link openings; stale waiters are
    /// invalidated by it.
    pub epoch: u64,
    /// The live session of this epoch, once created.
    pub session: Option<u64>,
    /// The live handle of this epoch, once attached.
    pub handle: Option<u64>,
    pub registry: Registry,
    /// The token counter: each request takes the next value.
    pub next_token: u64,
    /// Consecutive failed connection attempts, driving the backoff.
    pub attempts: u64,
    /// The token of the in-flight bootstrap create, if any.
    pub boot_create: Option<Vec<u8>>,
    /// The token of the in-flight bootstrap attach, if any.
    pub boot_attach: Option<Vec<u8>>,
    pub config: Config,
}

/// The token minted for counter value `n`.
pub open spec fn token_of(n: u64) -> Seq<u8> {
    dec_digits(n)
}

/// The counter after a mint: the next value, wrapping at the end.
pub open spec fn next_counter(n: u64) -> u64 {
    if n == u64::MAX {
        0u64
    } else {
        (n + 1) as u64
    }
}

impl Engine {
    /// The engine's invariant: unique live tokens, none newer than the
    /// epoch, well-formed configuration, and a session and handle whenever
    /// the engine serves traffic.
    pub open spec fn wf(&self) -> bool {
        &&& self.registry.wf()
        &&& config_wf(self.config)
        &&& forall|i: int|
            0 <= i < self.registry@.len() ==> (#[trigger] self.registry@[i]).epoch <= self.epoch
        &&& self.state == ConnState::Connected ==> self.session is Some && self.handle is Some
    }

    /// A fresh engine: disconnected, epoch zero, nothing pending.
    pub fn new(config: Config) -> (e: Engine)
        requires
            config_wf(config),
        ensures
            e.wf(),
            e.state == ConnState::Disconnected,
            e.epoch == 0,
            e.session is None,
            e.handle is None,
            e.registry@ == Seq::<SpecWaiter>::empty(),
            e.next_token == 0,
            e.attempts == 0,
            e.boot_create is None,
            e.boot_attach is None,
            e.config == config,
    {
        Engine {
            state: ConnState::Disconnected,
            epoch: 0,
            session: None,
            handle: None,
            registry: Registry::new(),
            next_token: 0,
            attempts: 0,
            boot_create: None,
            boot_attach: None,
            config,
        }
    }
}

/// Mints the next transaction token: the decimal digits of the counter.
fn fresh_token(e: &mut Engine) -> (t: Vec<u8>)
    ensures
        t@ == token_of(old(e).next_token),
        *final(e) == (Engine { next_token: final(e).next_token, ..*old(e) }),
        final(e).next_token == next_counter(old(e).next_token),
{
    let mut t: Vec<u8> = Vec::new();
    crate::codec::push_dec(&mut t, e.next_token);
    proof {
        assert(Seq::<u8>::empty() + dec_digits(old(e).next_token) =~= dec_digits(
            old(e).next_token,
        ));
    }
    if e.next_token == u64::MAX {
        e.next_token = 0;
    } else {
        e.next_token = e.next_token + 1;
    }
    t
}

// ---------------------------------------------------------------------------
// The commands the engine issues
// ---------------------------------------------------------------------------

/// The create-session command.
pub open spec fn create_cmd(secret: Option<Seq<u8>>, tok: Seq<u8>) -> SpecCommand {
    SpecCommand {
        kind: CommandKind::Create,
        secret,
        plugin: None,
        transaction: tok,
        session_id: None,
        handle_id: None,
        body: None,
    }
}

/// The attach-handle command.
pub open spec fn attach_cmd(
    secret: Option<Seq<u8>>,
    plugin: Seq<u8>,
    tok: Seq<u8>,
    sid: u64,
) -> SpecCommand {
    SpecCommand {
        kind: CommandKind::Attach,
        secret,
        plugin: Some(plugin),
        transaction: tok,
        session_id: Some(sid),
        handle_id: None,
        body: None,
    }
}

/// The keepalive command.
pub open spec fn keepalive_cmd(secret: Option<Seq<u8>>, tok: Seq<u8>, sid: u64) -> SpecCommand {
    SpecCommand {
        kind: CommandKind::Keepalive,
        secret,
        plugin: None,
        transaction: tok,
        session_id: Some(sid),
        handle_id: None,
        body: None,
    }
}

/// The generic plugin-message command.
pub open spec fn message_cmd(
    secret: Option<Seq<u8>>,
    tok: Seq<u8>,
    sid: u64,
    hid: u64,
    body: Seq<SpecBodyField>,
) -> SpecCommand {
    SpecCommand {
        kind: CommandKind::Message,
        secret,
        plugin: None,
        transaction: tok,
        session_id: Some(sid),
        handle_id: Some(hid),
        body: Some(body),
    }
}

/// The deadline of a request issued now, clamped at the end of time.
pub open spec fn deadline_of(now: u64, timeout: u64) -> u64 {
    if now + timeout > u64::MAX {
        u64::MAX
    } else {
        (now + timeout) as u64
    }
}

fn deadline(now: u64, timeout: u64) -> (d: u64)
    ensures
        d == deadline_of(now, timeout),
{
    if now > u64::MAX - timeout {
        u64::MAX
    } else {
        now + timeout
    }
}

/// What every successful dispatch does: it registers the minted token at the
/// engine's current epoch with the request's deadline, advances the counter,
/// and leaves everything else alone.
pub open spec fn dispatched(pre: Engine, post: Engine, iss: Issued, now: u64) -> bool {
    &&& iss.token@ == token_of(pre.next_token)
    &&& post.registry@ == pre.registry@.push(
        SpecWaiter {
            token: token_of(pre.next_token),
            epoch: pre.epoch,
            deadline: deadline_of(now, pre.config.request_timeout),
        },
    )
    &&& post == (Engine { registry: post.registry, next_token: post.next_token, ..pre })
    &&& post.next_token == next_counter(pre.next_token)
}

/// A token collision: the minted token is already live, so this request — and
/// only this request — fails, and the engine stands as before but for the
/// advanced counter.
pub open spec fn dispatch_collided(pre: Engine, post: Engine) -> bool {
    &&& has_token(pre.registry@, token_of(pre.next_token))
    &&& post.registry@ == pre.registry@
    &&& post == (Engine { registry: post.registry, next_token: post.next_token, ..pre })
    &&& post.next_token == next_counter(pre.next_token)
}

/// Registers a freshly minted token and encodes the command built by the
/// caller around it; the placeholder transaction of `cmd` is replaced by the
/// minted token.
fn dispatch(e: &mut Engine, cmd: Command, now: u64) -> (r: Result<Issued, EngineError>)
    requires
        old(e).wf(),
    ensures
        final(e).wf(),
        match r {
            Ok(iss) => {
                &&& !has_token(old(e).registry@, token_of(old(e).next_token))
                &&& dispatched(*old(e), *final(e), iss, now)
                &&& iss.frame@ == spec_frame(
                    (SpecCommand { transaction: token_of(old(e).next_token), ..cmd_view(cmd) }),
                )
            },
            Err(err) => err is DuplicateToken && dispatch_collided(*old(e), *final(e)),
        },
{
    let t_reg = fresh_token(e);
    let t_cmd = copy_bytes(&t_reg);
    let t_out = copy_bytes(&t_reg);
    let d = deadline(now, e.config.request_timeout);
    match e.registry.register(t_reg, e.epoch, d) {
        Ok(()) => {
            let mut cmd2 = cmd;
            cmd2.transaction = t_cmd;
            let frame = encode(&cmd2);
            proof {
                let pre = *old(e);
                assert forall|i: int| 0 <= i < e.registry@.len() implies (
                #[trigger] e.registry@[i]).epoch <= e.epoch by {
                    if i < pre.registry@.len() {
                        assert(pre.registry@[i].epoch <= pre.epoch);
                    }
                }
            }
            Ok(Issued { token: t_out, frame })
        },
        Err(_) => Err(EngineError::DuplicateToken),
    }
}


// ---------------------------------------------------------------------------
// Reconnect backoff
// ---------------------------------------------------------------------------

/// Two to the `k`.
pub open spec fn pow2(k: nat) -> nat
    decreases k,
{
    if k == 0 {
        1
    } else {
        2 * pow2((k - 1) as nat)
    }
}

/// The delay before reconnect attempt number `a` (counting failures so far):
/// at least one second, doubling per earlier failure, capped.
pub open spec fn spec_backoff(a: u64, lo: u64, hi: u64) -> u64 {
    let base = if lo < 1000 {
        1000u64
    } else {
        lo
    };
    let cap = if hi < base {
        base
    } else {
        hi
    };
    let k = if a <= 1 {
        0nat
    } else if a - 1 > 20 {
        20nat
    } else {
        (a - 1) as nat
    };
    let raw = (base as nat) * pow2(k);
    if raw > cap as nat {
        cap
    } else {
        raw as u64
    }
}

/// Every power of two is positive.
proof fn lemma_pow2_pos(k: nat)
    ensures
        pow2(k) >= 1,
    decreases k,
{
    if k > 0 {
        lemma_pow2_pos((k - 1) as nat);
    }
}

/// Doubling never shrinks, and the doubled value doubles the power.
proof fn lemma_pow2_step(b: nat, k: nat)
    ensures
        b * pow2(k + 1) == 2 * (b * pow2(k)),
        b * pow2(k) >= b,
{
    lemma_pow2_pos(k);
    assert(pow2(k + 1) == 2 * pow2(k));
    let p = pow2(k);
    assert(b * (2 * p) == 2 * (b * p)) by (nonlinear_arith);
    assert(p >= 1 ==> b * p >= b) by (nonlinear_arith);
}

/// Computes the reconnect delay.
pub fn backoff_delay(a: u64, lo: u64, hi: u64) -> (d: u64)
    ensures
        d == spec_backoff(a, lo, hi),
{
    let base: u64 = if lo < 1000 {
        1000
    } else {
        lo
    };
    let cap: u64 = if hi < base {
        base
    } else {
        hi
    };
    let k: u64 = if a <= 1 {
        0
    } else if a - 1 > 20 {
        20
    } else {
        a - 1
    };
    let mut d: u64 = base;
    let mut i: u64 = 0;
    proof {
        assert((base as nat) * pow2(0) == base as nat) by {
            vstd::arithmetic::mul::lemma_mul_basics(base as int);
        }
    }
    while i < k
        invariant
            0 <= i <= k,
            base <= cap,
            d == (if (base as nat) * pow2(i as nat) > cap as nat {
                cap as nat
            } else {
                (base as nat) * pow2(i as nat)
            }),
        decreases k - i,
    {
        proof {
            lemma_pow2_step(base as nat, i as nat);
        }
        if d > cap / 2 {
            proof {
                vstd::arithmetic::div_mod::lemma_fundamental_div_mod(cap as int, 2);
            }
            d = cap;
        } else {
            proof {
                vstd::arithmetic::div_mod::lemma_fundamental_div_mod(cap as int, 2);
            }
            d = d * 2;
        }
        i += 1;
    }
    d
}

// ---------------------------------------------------------------------------
// Connection lifecycle
// ---------------------------------------------------------------------------

/// The attempt counter after one more failure, never wrapping.
pub open spec fn sat_inc(n: u64) -> u64 {
    if n == u64::MAX {
        n
    } else {
        (n + 1) as u64
    }
}

/// What giving the link up does: the engine stands disconnected, the epoch's
/// waiters are all drained for the caller to fail with a connection-lost
/// outcome, the failure is counted, and the next attempt is due after the
/// returned backoff delay.
pub open spec fn disconnected_after(
    pre: Engine,
    post: Engine,
    stale: Seq<Waiter>,
    delay: u64,
) -> bool {
    &&& post.state == ConnState::Disconnected
    &&& post.session is None
    &&& post.handle is None
    &&& post.boot_create is None
    &&& post.boot_attach is None
    &&& post.registry@ == Seq::<SpecWaiter>::empty()
    &&& crate::registry::reg_view(stale) == pre.registry@
    &&& post.attempts == sat_inc(pre.attempts)
    &&& post.epoch == pre.epoch
    &&& post.config == pre.config
    &&& delay == spec_backoff(post.attempts, pre.config.backoff_min, pre.config.backoff_max)
}

/// Drops to `Disconnected`, draining every waiter and counting the failure.
fn give_up_link(e: &mut Engine) -> (r: (Vec<Waiter>, u64))
    requires
        old(e).wf(),
    ensures
        final(e).wf(),
        disconnected_after(*old(e), *final(e), r.0@, r.1),
        final(e).next_token == old(e).next_token,
{
    e.state = ConnState::Disconnected;
    e.session = None;
    e.handle = None;
    e.boot_create = None;
    e.boot_attach = None;
    let stale = e.registry.drain();
    if e.attempts < u64::MAX {
        e.attempts = e.attempts + 1;
    }
    let delay = backoff_delay(e.attempts, e.config.backoff_min, e.config.backoff_max);
    (stale, delay)
}

/// Begins a connection attempt: from `Disconnected` the engine moves to
/// `Connecting` and the driver opens the physical link to the gateway (with
/// its sub-protocol); in any other state nothing happens. The driver reports
/// back through `on_link_opened` or `on_link_lost`.
pub fn _wsclient_connect(e: &mut Engine) -> (started: bool)
    requires
        old(e).wf(),
    ensures
        final(e).wf(),
        old(e).state == ConnState::Disconnected ==> started && *final(e) == (Engine {
            state: ConnState::Connecting,
            ..*old(e)
        }),
        old(e).state != ConnState::Disconnected ==> !started && *final(e) == *old(e),
{
    match e.state {
        ConnState::Disconnected => {
            e.state = ConnState::Connecting;
            true
        },
        _ => false,
    }
}

/// The link failed or dropped, in any state that had one: the engine goes
/// back to `Disconnected`, every pending waiter is handed back to fail with
/// a connection-lost outcome, and the next attempt is due after the returned
/// delay. In `Disconnected` or `Stopped` nothing happens.
pub fn on_link_lost(e: &mut Engine) -> (r: Option<(Vec<Waiter>, u64)>)
    requires
        old(e).wf(),
    ensures
        final(e).wf(),
        (old(e).state == ConnState::Disconnected || old(e).state == ConnState::Stopped) ==> r
            is None && *final(e) == *old(e),
        !(old(e).state == ConnState::Disconnected || old(e).state == ConnState::Stopped) ==> (
        match r {
            Some(p) => disconnected_after(*old(e), *final(e), p.0@, p.1) && final(e).next_token
                == old(e).next_token,
            None => false,
        }),
{
    match e.state {
        ConnState::Disconnected => None,
        ConnState::Stopped => None,
        _ => {
            let (stale, delay) = give_up_link(e);
            Some((stale, delay))
        },
    }
}

/// Stops the engine for good: every pending waiter is handed back so the
/// driver can fail it with a shutdown outcome and cancel its timers.
pub fn shutdown(e: &mut Engine) -> (stale: Vec<Waiter>)
    requires
        old(e).wf(),
    ensures
        final(e).wf(),
        final(e).state == ConnState::Stopped,
        final(e).registry@ == Seq::<SpecWaiter>::empty(),
        crate::registry::reg_view(stale@) == old(e).registry@,
        *final(e) == (Engine { state: ConnState::Stopped, registry: final(e).registry, ..*old(e) }),
{
    e.state = ConnState::Stopped;
    e.registry.drain()
}


// ---------------------------------------------------------------------------
// Dispatcher operations
// ---------------------------------------------------------------------------

/// What every dispatcher operation does on success, besides its own frame:
/// register the minted token at the current epoch with the request deadline,
/// and advance the counter.
pub open spec fn op_registered(pre: Engine, post: Engine, iss: Issued, now: u64) -> bool {
    &&& iss.token@ == token_of(pre.next_token)
    &&& post.registry@ == pre.registry@.push(
        (SpecWaiter {
            token: token_of(pre.next_token),
            epoch: pre.epoch,
            deadline: deadline_of(now, pre.config.request_timeout),
        }),
    )
    &&& post.next_token == next_counter(pre.next_token)
}

/// A create-session call is in order exactly while bootstrapping, before a
/// session stands and before a create is in flight.
pub open spec fn may_create(e: Engine) -> bool {
    e.state == ConnState::Bootstrapping && e.session is None && e.boot_create is None
}

/// Issues the create-session command: the first call after every successful
/// (re)connect. Outside the bootstrap window the engine is not serving this
/// call and nothing is sent.
pub fn _wsclient_createsession(e: &mut Engine, now: u64) -> (r: Result<Issued, EngineError>)
    requires
        old(e).wf(),
    ensures
        final(e).wf(),
        !may_create(*old(e)) ==> (r matches Err(err) && err is NotConnected) && *final(e) == *old(
            e,
        ),
        may_create(*old(e)) && !has_token(old(e).registry@, token_of(old(e).next_token)) ==> (
        match r {
            Ok(iss) => {
                &&& op_registered(*old(e), *final(e), iss, now)
                &&& iss.frame@ == spec_frame(
                    create_cmd(opt_bytes(old(e).config.secret), token_of(old(e).next_token)),
                )
                &&& opt_bytes(final(e).boot_create) == Some(token_of(old(e).next_token))
                &&& *final(e) == (Engine {
                    registry: final(e).registry,
                    next_token: final(e).next_token,
                    boot_create: final(e).boot_create,
                    ..*old(e)
                })
            },
            Err(_) => false,
        }),
        may_create(*old(e)) && has_token(old(e).registry@, token_of(old(e).next_token)) ==> (r
            matches Err(err) && err is DuplicateToken) && dispatch_collided(*old(e), *final(e)),
{
    if !(matches!(e.state, ConnState::Bootstrapping) && e.session.is_none()
        && e.boot_create.is_none()) {
        return Err(EngineError::NotConnected);
    }
    let secret = match &e.config.secret {
        Some(s) => Some(copy_bytes(s)),
        None => None,
    };
    let cmd = Command {
        kind: CommandKind::Create,
        secret,
        plugin: None,
        transaction: Vec::new(),
        session_id: None,
        handle_id: None,
        body: None,
    };
    match dispatch(e, cmd, now) {
        Ok(iss) => {
            let t = copy_bytes(&iss.token);
            e.boot_create = Some(t);
            Ok(iss)
        },
        Err(err) => Err(err),
    }
}

/// An attach call is in order exactly while bootstrapping, once the session
/// stands and before an attach is in flight.
pub open spec fn may_attach(e: Engine) -> bool {
    e.state == ConnState::Bootstrapping && e.session is Some && e.boot_attach is None
}

/// Issues the attach-handle command, scoped to the bootstrap session,
/// naming the configured plugin.
pub fn _wsclient_createhandle(e: &mut Engine, now: u64) -> (r: Result<Issued, EngineError>)
    requires
        old(e).wf(),
    ensures
        final(e).wf(),
        !may_attach(*old(e)) ==> (r matches Err(err) && err is NotConnected) && *final(e) == *old(
            e,
        ),
        may_attach(*old(e)) && !has_token(old(e).registry@, token_of(old(e).next_token)) ==> (
        match r {
            Ok(iss) => {
                &&& op_registered(*old(e), *final(e), iss, now)
                &&& iss.frame@ == spec_frame(
                    attach_cmd(
                        opt_bytes(old(e).config.secret),
                        old(e).config.plugin@,
                        token_of(old(e).next_token),
                        old(e).session->Some_0,
                    ),
                )
                &&& opt_bytes(final(e).boot_attach) == Some(token_of(old(e).next_token))
                &&& *final(e) == (Engine {
                    registry: final(e).registry,
                    next_token: final(e).next_token,
                    boot_attach: final(e).boot_attach,
                    ..*old(e)
                })
            },
            Err(_) => false,
        }),
        may_attach(*old(e)) && has_token(old(e).registry@, token_of(old(e).next_token)) ==> (r
            matches Err(err) && err is DuplicateToken) && dispatch_collided(*old(e), *final(e)),
{
    if !(matches!(e.state, ConnState::Bootstrapping) && e.session.is_some()
        && e.boot_attach.is_none()) {
        return Err(EngineError::NotConnected);
    }
    let sid = match e.session {
        Some(s) => s,
        None => {
            return Err(EngineError::NotConnected);
        },
    };
    let secret = match &e.config.secret {
        Some(s) => Some(copy_bytes(s)),
        None => None,
    };
    let plugin = copy_bytes(&e.config.plugin);
    let cmd = Command {
        kind: CommandKind::Attach,
        secret,
        plugin: Some(plugin),
        transaction: Vec::new(),
        session_id: Some(sid),
        handle_id: None,
        body: None,
    };
    match dispatch(e, cmd, now) {
        Ok(iss) => {
            let t = copy_bytes(&iss.token);
            e.boot_attach = Some(t);
            Ok(iss)
        },
        Err(err) => Err(err),
    }
}

/// Issues one keepalive, scoped to the live session: exactly one outbound
/// frame carrying the current session id, whenever the engine stands
/// `Connected`. Its reply is a bare acknowledgement.
pub fn _wsclient_keepalive(e: &mut Engine, now: u64) -> (r: Result<Issued, EngineError>)
    requires
        old(e).wf(),
    ensures
        final(e).wf(),
        old(e).state != ConnState::Connected ==> (r matches Err(err) && err is NotConnected)
            && *final(e) == *old(e),
        old(e).state == ConnState::Connected && !has_token(
            old(e).registry@,
            token_of(old(e).next_token),
        ) ==> (match r {
            Ok(iss) => {
                &&& op_registered(*old(e), *final(e), iss, now)
                &&& iss.frame@ == spec_frame(
                    keepalive_cmd(
                        opt_bytes(old(e).config.secret),
                        token_of(old(e).next_token),
                        old(e).session->Some_0,
                    ),
                )
                &&& *final(e) == (Engine {
                    registry: final(e).registry,
                    next_token: final(e).next_token,
                    ..*old(e)
                })
            },
            Err(_) => false,
        }),
        old(e).state == ConnState::Connected && has_token(
            old(e).registry@,
            token_of(old(e).next_token),
        ) ==> (r matches Err(err) && err is DuplicateToken) && dispatch_collided(
            *old(e),
            *final(e),
        ),
{
    if !matches!(e.state, ConnState::Connected) {
        return Err(EngineError::NotConnected);
    }
    let sid = match e.session {
        Some(s) => s,
        None => {
            return Err(EngineError::NotConnected);
        },
    };
    let secret = match &e.config.secret {
        Some(s) => Some(copy_bytes(s)),
        None => None,
    };
    let cmd = Command {
        kind: CommandKind::Keepalive,
        secret,
        plugin: None,
        transaction: Vec::new(),
        session_id: Some(sid),
        handle_id: None,
        body: None,
    };
    dispatch(e, cmd, now)
}

/// Issues a generic plugin request with an opaque body, scoped to the live
/// session and handle. The engine does not read the body: room creation,
/// kicking and the rest are just different bodies.
pub fn plugin_request(e: &mut Engine, body: Vec<BodyField>, now: u64) -> (r: Result<
    Issued,
    EngineError,
>)
    requires
        old(e).wf(),
    ensures
        final(e).wf(),
        old(e).state != ConnState::Connected ==> (r matches Err(err) && err is NotConnected)
            && *final(e) == *old(e),
        old(e).state == ConnState::Connected && !has_token(
            old(e).registry@,
            token_of(old(e).next_token),
        ) ==> (match r {
            Ok(iss) => {
                &&& op_registered(*old(e), *final(e), iss, now)
                &&& iss.frame@ == spec_frame(
                    message_cmd(
                        opt_bytes(old(e).config.secret),
                        token_of(old(e).next_token),
                        old(e).session->Some_0,
                        old(e).handle->Some_0,
                        body_view(body@),
                    ),
                )
                &&& *final(e) == (Engine {
                    registry: final(e).registry,
                    next_token: final(e).next_token,
                    ..*old(e)
                })
            },
            Err(_) => false,
        }),
        old(e).state == ConnState::Connected && has_token(
            old(e).registry@,
            token_of(old(e).next_token),
        ) ==> (r matches Err(err) && err is DuplicateToken) && dispatch_collided(
            *old(e),
            *final(e),
        ),
{
    if !matches!(e.state, ConnState::Connected) {
        return Err(EngineError::NotConnected);
    }
    let sid = match e.session {
        Some(s) => s,
        None => {
            return Err(EngineError::NotConnected);
        },
    };
    let hid = match e.handle {
        Some(h) => h,
        None => {
            return Err(EngineError::NotConnected);
        },
    };
    let secret = match &e.config.secret {
        Some(s) => Some(copy_bytes(s)),
        None => None,
    };
    let cmd = Command {
        kind: CommandKind::Message,
        secret,
        plugin: None,
        transaction: Vec::new(),
        session_id: Some(sid),
        handle_id: Some(hid),
        body: Some(body),
    };
    dispatch(e, cmd, now)
}


// ---------------------------------------------------------------------------
// Plugin request helpers
// ---------------------------------------------------------------------------

/// The body of a create-room request: `request:"create"`, the room number,
/// and the admin key when the configuration holds one.
pub open spec fn createroom_body(c: Config, room: u64) -> Seq<SpecBodyField> {
    seq![
        (SpecBodyField { key: k_request(), val: SpecBodyVal::Text(k_create()) }),
        (SpecBodyField { key: k_room(), val: SpecBodyVal::Num(room) }),
    ] + (match c.admin_key {
        Some(k) => seq![(SpecBodyField { key: k_admin_key(), val: SpecBodyVal::Text(k@) })],
        None => Seq::empty(),
    })
}

/// The body of a kick request: `request:"kick"`, the room number, the room
/// secret when the configuration holds one, and the id of the user to kick.
pub open spec fn kick_body(c: Config, room: u64, user: u64) -> Seq<SpecBodyField> {
    seq![
        (SpecBodyField { key: k_request(), val: SpecBodyVal::Text(k_kick()) }),
        (SpecBodyField { key: k_room(), val: SpecBodyVal::Num(room) }),
    ] + (match c.room_secret {
        Some(k) => seq![(SpecBodyField { key: k_secret(), val: SpecBodyVal::Text(k@) })],
        None => Seq::empty(),
    }) + seq![(SpecBodyField { key: k_id(), val: SpecBodyVal::Num(user) })]
}

/// Issues the plugin request that creates a room.
pub fn _wsclient_createroom(e: &mut Engine, room_id: u64, now: u64) -> (r: Result<
    Issued,
    EngineError,
>)
    requires
        old(e).wf(),
    ensures
        final(e).wf(),
        old(e).state != ConnState::Connected ==> (r matches Err(err) && err is NotConnected)
            && *final(e) == *old(e),
        old(e).state == ConnState::Connected && !has_token(
            old(e).registry@,
            token_of(old(e).next_token),
        ) ==> (match r {
            Ok(iss) => {
                &&& op_registered(*old(e), *final(e), iss, now)
                &&& iss.frame@ == spec_frame(
                    message_cmd(
                        opt_bytes(old(e).config.secret),
                        token_of(old(e).next_token),
                        old(e).session->Some_0,
                        old(e).handle->Some_0,
                        createroom_body(old(e).config, room_id),
                    ),
                )
                &&& *final(e) == (Engine {
                    registry: final(e).registry,
                    next_token: final(e).next_token,
                    ..*old(e)
                })
            },
            Err(_) => false,
        }),
        old(e).state == ConnState::Connected && has_token(
            old(e).registry@,
            token_of(old(e).next_token),
        ) ==> (r matches Err(err) && err is DuplicateToken) && dispatch_collided(
            *old(e),
            *final(e),
        ),
{
    let mut body: Vec<BodyField> = Vec::new();
    let kr = lit_request();
    let vc = lit_create();
    body.push(BodyField { key: kr, val: BodyVal::Text(vc) });
    let km = lit_room();
    body.push(BodyField { key: km, val: BodyVal::Num(room_id) });
    match &e.config.admin_key {
        Some(k) => {
            let ka = lit_admin_key();
            let kv = copy_bytes(k);
            body.push(BodyField { key: ka, val: BodyVal::Text(kv) });
        },
        None => {},
    }
    proof {
        assert(body_view(body@) =~= createroom_body(e.config, room_id));
    }
    plugin_request(e, body, now)
}

/// Issues the plugin request that kicks a user out of a room.
pub fn _wsclient_kick(e: &mut Engine, room_id: u64, user_id: u64, now: u64) -> (r: Result<
    Issued,
    EngineError,
>)
    requires
        old(e).wf(),
    ensures
        final(e).wf(),
        old(e).state != ConnState::Connected ==> (r matches Err(err) && err is NotConnected)
            && *final(e) == *old(e),
        old(e).state == ConnState::Connected && !has_token(
            old(e).registry@,
            token_of(old(e).next_token),
        ) ==> (match r {
            Ok(iss) => {
                &&& op_registered(*old(e), *final(e), iss, now)
                &&& iss.frame@ == spec_frame(
                    message_cmd(
                        opt_bytes(old(e).config.secret),
                        token_of(old(e).next_token),
                        old(e).session->Some_0,
                        old(e).handle->Some_0,
                        kick_body(old(e).config, room_id, user_id),
                    ),
                )
                &&& *final(e) == (Engine {
                    registry: final(e).registry,
                    next_token: final(e).next_token,
                    ..*old(e)
                })
            },
            Err(_) => false,
        }),
        old(e).state == ConnState::Connected && has_token(
            old(e).registry@,
            token_of(old(e).next_token),
        ) ==> (r matches Err(err) && err is DuplicateToken) && dispatch_collided(
            *old(e),
            *final(e),
        ),
{
    let mut body: Vec<BodyField> = Vec::new();
    let kr = lit_request();
    let vk = lit_kick();
    body.push(BodyField { key: kr, val: BodyVal::Text(vk) });
    let km = lit_room();
    body.push(BodyField { key: km, val: BodyVal::Num(room_id) });
    match &e.config.room_secret {
        Some(k) => {
            let ks = lit_secret();
            let kv = copy_bytes(k);
            body.push(BodyField { key: ks, val: BodyVal::Text(kv) });
        },
        None => {},
    }
    let ki = lit_id();
    body.push(BodyField { key: ki, val: BodyVal::Num(user_id) });
    proof {
        assert(body_view(body@) =~= kick_body(e.config, room_id, user_id));
    }
    plugin_request(e, body, now)
}


// ---------------------------------------------------------------------------
// Link opening and the bootstrap sequence
// ---------------------------------------------------------------------------

/// The link opened: the epoch advances, every waiter of the old epoch is
/// invalidated (handed back to fail with a connection-lost outcome), and the
/// bootstrap begins with the create-session command, whose frame the driver
/// writes first. In any state but `Connecting` nothing happens.
pub fn on_link_opened(e: &mut Engine, now: u64) -> (r: Option<(Vec<Waiter>, Issued)>)
    requires
        old(e).wf(),
        old(e).state == ConnState::Connecting ==> old(e).epoch < u64::MAX,
    ensures
        final(e).wf(),
        old(e).state != ConnState::Connecting ==> r is None && *final(e) == *old(e),
        old(e).state == ConnState::Connecting ==> (match r {
            Some(p) => {
                &&& crate::registry::reg_view(p.0@) == old(e).registry@
                &&& final(e).epoch == old(e).epoch + 1
                &&& final(e).state == ConnState::Bootstrapping
                &&& final(e).session is None
                &&& final(e).handle is None
                &&& final(e).boot_attach is None
                &&& p.1.token@ == token_of(old(e).next_token)
                &&& p.1.frame@ == spec_frame(
                    create_cmd(opt_bytes(old(e).config.secret), token_of(old(e).next_token)),
                )
                &&& opt_bytes(final(e).boot_create) == Some(token_of(old(e).next_token))
                &&& final(e).registry@ == seq![
                    (SpecWaiter {
                        token: token_of(old(e).next_token),
                        epoch: (old(e).epoch + 1) as u64,
                        deadline: deadline_of(now, old(e).config.request_timeout),
                    }),
                ]
                &&& final(e).next_token == next_counter(old(e).next_token)
                &&& final(e).attempts == old(e).attempts
                &&& final(e).config == old(e).config
            },
            None => false,
        }),
{
    if !matches!(e.state, ConnState::Connecting) {
        return None;
    }
    e.epoch = e.epoch + 1;
    let stale = e.registry.invalidate_epoch(e.epoch);
    proof {
        crate::registry::lemma_all_stale(old(e).registry@, e.epoch);
    }
    e.session = None;
    e.handle = None;
    e.boot_create = None;
    e.boot_attach = None;
    e.state = ConnState::Bootstrapping;
    let ghost mid = *e;
    let iss = match _wsclient_createsession(e, now) {
        Ok(iss) => iss,
        Err(_) => {
            proof {
                assert(!has_token(mid.registry@, token_of(mid.next_token)));
                assert(false);
            }
            return None;
        },
    };
    proof {
        assert(e.registry@ =~= seq![
            (SpecWaiter {
                token: token_of(old(e).next_token),
                epoch: (old(e).epoch + 1) as u64,
                deadline: deadline_of(now, old(e).config.request_timeout),
            }),
        ]);
    }
    Some((stale, iss))
}

/// What a resolved reply means for the caller of the matching request.
pub open spec fn outcome_matches(o: Outcome, m: crate::codec::SpecInbound) -> bool {
    match m {
        crate::codec::SpecInbound::Success { data_id, payload, sender, .. } => o matches
            Outcome::Success { data_id: d2, payload: p2, sender: n2 } && d2 == data_id
            && opt_bytes(p2) == payload && n2 == sender,
        crate::codec::SpecInbound::GatewayError { code, reason, .. } => o matches Outcome::Failed(
            err,
        ) && (err matches EngineError::GatewayError { code: c2, reason: r2 } && c2 == code && r2@
            == reason),
        crate::codec::SpecInbound::Ack { .. } => o is Acked,
        crate::codec::SpecInbound::Event { .. } => false,
    }
}

/// What the router hands its driver for one frame.
pub enum RouterOutput {
    /// The frame was malformed: logged and dropped.
    Malformed,
    /// A reply whose token no waiter holds: late or duplicate, dropped.
    Stale,
    /// A reply resolved its waiter: the driver completes the caller with the
    /// outcome.
    Resolved { waiter: Waiter, outcome: Outcome },
    /// An unsolicited event for the event sink, payload verbatim.
    EventOut { payload: Option<Vec<u8>>, session_id: Option<u64>, sender: Option<u64> },
}

/// Routing a reply: the matching waiter leaves the registry and carries the
/// reply's outcome; a token nobody waits for changes nothing.
pub open spec fn routed(
    pre: Seq<SpecWaiter>,
    post: Seq<SpecWaiter>,
    t: Seq<u8>,
    m: crate::codec::SpecInbound,
    out: RouterOutput,
) -> bool {
    if has_token(pre, t) {
        &&& post == crate::registry::remove_token(pre, t)
        &&& out matches RouterOutput::Resolved { waiter, outcome } && crate::registry::found_waiter(
            pre,
            t,
        ) == Some(waiter_view(waiter)) && outcome_matches(outcome, m)
    } else {
        &&& post == pre
        &&& out is Stale
    }
}

/// Routes one inbound frame: a reply resolves its waiter by transaction
/// token, an event goes to the event sink verbatim, and a malformed frame is
/// dropped. Nothing here blocks, and nothing but the registry changes.
pub fn _wsclient_processevent(e: &mut Engine, frame: &Vec<u8>) -> (out: RouterOutput)
    requires
        old(e).wf(),
    ensures
        final(e).wf(),
        *final(e) == (Engine { registry: final(e).registry, ..*old(e) }),
        match crate::codec::spec_decode(frame@) {
            None => out is Malformed && final(e).registry@ == old(e).registry@,
            Some(m) => match m {
                crate::codec::SpecInbound::Event {
                    janus,
                    transaction,
                    session_id,
                    handle_id,
                    sender,
                    payload,
                } => final(e).registry@ == old(e).registry@ && (out matches RouterOutput::EventOut {
                    payload: p2,
                    session_id: s2,
                    sender: n2,
                } && opt_bytes(p2) == payload && s2 == session_id && n2 == sender),
                crate::codec::SpecInbound::Success { transaction: t, .. } => routed(
                    old(e).registry@,
                    final(e).registry@,
                    t,
                    m,
                    out,
                ),
                crate::codec::SpecInbound::GatewayError { transaction: t, .. } => routed(
                    old(e).registry@,
                    final(e).registry@,
                    t,
                    m,
                    out,
                ),
                crate::codec::SpecInbound::Ack { transaction: t, .. } => routed(
                    old(e).registry@,
                    final(e).registry@,
                    t,
                    m,
                    out,
                ),
            },
        },
{
    let msg = match crate::codec::decode(frame) {
        Ok(m) => m,
        Err(_) => {
            return RouterOutput::Malformed;
        },
    };
    proof {
        crate::registry::lemma_remove_epoch_bound(e.registry@, Seq::empty(), e.epoch);
    }
    match msg {
        crate::codec::InboundMessage::Event { payload, session_id, sender, .. } => {
            RouterOutput::EventOut { payload, session_id, sender }
        },
        crate::codec::InboundMessage::Success {
            transaction,
            session_id: _,
            sender,
            data_id,
            payload,
        } => {
            proof {
                crate::registry::lemma_remove_epoch_bound(e.registry@, transaction@, e.epoch);
                crate::registry::lemma_found_iff_has(e.registry@, transaction@);
            }
            match e.registry.resolve(&transaction) {
                Some(w) => RouterOutput::Resolved {
                    waiter: w,
                    outcome: Outcome::Success { data_id, payload, sender },
                },
                None => RouterOutput::Stale,
            }
        },
        crate::codec::InboundMessage::GatewayError { transaction, code, reason } => {
            proof {
                crate::registry::lemma_remove_epoch_bound(e.registry@, transaction@, e.epoch);
                crate::registry::lemma_found_iff_has(e.registry@, transaction@);
            }
            match e.registry.resolve(&transaction) {
                Some(w) => RouterOutput::Resolved {
                    waiter: w,
                    outcome: Outcome::Failed(EngineError::GatewayError { code, reason }),
                },
                None => RouterOutput::Stale,
            }
        },
        crate::codec::InboundMessage::Ack { transaction, session_id: _ } => {
            proof {
                crate::registry::lemma_remove_epoch_bound(e.registry@, transaction@, e.epoch);
                crate::registry::lemma_found_iff_has(e.registry@, transaction@);
            }
            match e.registry.resolve(&transaction) {
                Some(w) => RouterOutput::Resolved { waiter: w, outcome: Outcome::Acked },
                None => RouterOutput::Stale,
            }
        },
    }
}


/// What the connection manager does with one resolved waiter while
/// bootstrapping.
pub enum BootStep {
    /// The waiter was no bootstrap transaction: the outcome belongs to an
    /// ordinary caller.
    NotBoot,
    /// The session was created: the driver writes the attach frame next.
    SendAttach(Issued),
    /// Session and handle both stand: the engine serves traffic, and the
    /// driver resumes the keepalive timer.
    Established,
    /// A bootstrap call failed: the link is given up, the returned waiters
    /// fail with a connection-lost outcome, and a reconnect is due after the
    /// returned delay.
    Failed { stale: Vec<Waiter>, retry_in: u64 },
}

/// Whether a recorded bootstrap token matches the resolved waiter.
pub open spec fn boot_token_is(bt: Option<Vec<u8>>, w: Waiter) -> bool {
    match bt {
        Some(t) => t@ == w.token@,
        None => false,
    }
}

/// The created id a bootstrap reply carries, if it succeeded with one.
pub open spec fn boot_success_id(o: Outcome) -> Option<u64> {
    match o {
        Outcome::Success { data_id, .. } => data_id,
        _ => None,
    }
}

/// Advances the bootstrap with one resolved waiter, as handed back by the
/// router: the create reply fixes the session and issues the attach command;
/// the attach reply fixes the handle and opens service; any bootstrap
/// failure — an error reply, a reply without an id, or a timeout — gives the
/// link up for a backoff retry. A waiter that is no bootstrap transaction
/// changes nothing.
pub fn advance_bootstrap(e: &mut Engine, w: &Waiter, o: &Outcome, now: u64) -> (r: BootStep)
    requires
        old(e).wf(),
    ensures
        final(e).wf(),
        !(old(e).state == ConnState::Bootstrapping && (boot_token_is(old(e).boot_create, *w)
            || boot_token_is(old(e).boot_attach, *w))) ==> r is NotBoot && *final(e) == *old(e),
        old(e).state == ConnState::Bootstrapping && boot_token_is(old(e).boot_create, *w) ==> (
        match boot_success_id(*o) {
            Some(id) => {
                &&& (!has_token(old(e).registry@, token_of(old(e).next_token)) ==> (match r {
                    BootStep::SendAttach(iss) => {
                        &&& final(e).session == Some(id)
                        &&& final(e).boot_create is None
                        &&& iss.frame@ == spec_frame(
                            attach_cmd(
                                opt_bytes(old(e).config.secret),
                                old(e).config.plugin@,
                                token_of(old(e).next_token),
                                id,
                            ),
                        )
                        &&& final(e).registry@ == old(e).registry@.push(
                            (SpecWaiter {
                                token: token_of(old(e).next_token),
                                epoch: old(e).epoch,
                                deadline: deadline_of(now, old(e).config.request_timeout),
                            }),
                        )
                        &&& opt_bytes(final(e).boot_attach) == Some(token_of(old(e).next_token))
                        &&& final(e).state == ConnState::Bootstrapping
                        &&& final(e).next_token == next_counter(old(e).next_token)
                    },
                    _ => false,
                }))
                &&& (has_token(old(e).registry@, token_of(old(e).next_token)) ==> (match r {
                    BootStep::Failed { stale, retry_in } => final(e).state
                        == ConnState::Disconnected && crate::registry::reg_view(stale@) == old(
                        e,
                    ).registry@ && final(e).attempts == sat_inc(old(e).attempts),
                    _ => false,
                }))
            },
            None => (match r {
                BootStep::Failed { stale, retry_in } => disconnected_after(
                    *old(e),
                    *final(e),
                    stale@,
                    retry_in,
                ),
                _ => false,
            }),
        }),
        old(e).state == ConnState::Bootstrapping && !boot_token_is(old(e).boot_create, *w)
            && boot_token_is(old(e).boot_attach, *w) ==> (match boot_success_id(*o) {
            Some(id) => (if old(e).session is Some {
                &&& r is Established
                &&& final(e).handle == Some(id)
                &&& final(e).state == ConnState::Connected
                &&& final(e).attempts == 0
                &&& final(e).boot_attach is None
                &&& final(e).registry@ == old(e).registry@
                &&& final(e).session == old(e).session
                &&& final(e).epoch == old(e).epoch
            } else {
                match r {
                    BootStep::Failed { stale, retry_in } => disconnected_after(
                        *old(e),
                        *final(e),
                        stale@,
                        retry_in,
                    ),
                    _ => false,
                }
            }),
            None => (match r {
                BootStep::Failed { stale, retry_in } => disconnected_after(
                    *old(e),
                    *final(e),
                    stale@,
                    retry_in,
                ),
                _ => false,
            }),
        }),
{
    if !matches!(e.state, ConnState::Bootstrapping) {
        return BootStep::NotBoot;
    }
    let is_create = match &e.boot_create {
        Some(t) => crate::codec::bytes_eq(t, &w.token),
        None => false,
    };
    let is_attach = match &e.boot_attach {
        Some(t) => crate::codec::bytes_eq(t, &w.token),
        None => false,
    };
    if is_create {
        e.boot_create = None;
        match o {
            Outcome::Success { data_id: Some(id), .. } => {
                e.session = Some(*id);
                e.boot_attach = None;
                match _wsclient_createhandle(e, now) {
                    Ok(iss) => BootStep::SendAttach(iss),
                    Err(_) => {
                        let (stale, retry_in) = give_up_link(e);
                        BootStep::Failed { stale, retry_in }
                    },
                }
            },
            _ => {
                let (stale, retry_in) = give_up_link(e);
                BootStep::Failed { stale, retry_in }
            },
        }
    } else if is_attach {
        e.boot_attach = None;
        match o {
            Outcome::Success { data_id: Some(id), .. } => {
                if e.session.is_none() {
                    let (stale, retry_in) = give_up_link(e);
                    return BootStep::Failed { stale, retry_in };
                }
                e.handle = Some(*id);
                e.state = ConnState::Connected;
                e.attempts = 0;
                BootStep::Established
            },
            _ => {
                let (stale, retry_in) = give_up_link(e);
                BootStep::Failed { stale, retry_in }
            },
        }
    } else {
        BootStep::NotBoot
    }
}

} // verus!





