//! Leader arbitration from heartbeats.
//!
//! Every instance appends a heartbeat on a fixed interval. An instance
//! leads while the leading heartbeat carries its own identity: among the
//! heartbeats that are still fresh, the one of the instance with the
//! smallest identity. This is best effort, not a lease: for about one
//! heartbeat interval two instances can both believe that they lead.

use crate::config::Config;
use crate::db::{DBError, DB};
use crate::heartbeat::Heartbeat;
use vstd::prelude::*;
use vstd::string::*;
use vstd::utf8::*;

verus! {

/// Seconds after which a heartbeat no longer shows that its sender lives.
pub const STALENESS_WINDOW: i64 = 30;

/// Milliseconds between two beats of the heartbeat monitor.
pub const HEALTH_CHECK_INTERVAL_MS: u64 = 5000;

/// What an instance believes of itself.
#[allow(non_camel_case_types)]
#[derive(Clone, Copy, Debug, PartialEq, Eq, Structural)]
pub enum Role {
    /// This instance fires the jobs.
    LEADER,
    /// Another instance does, or nobody is known to.
    FOLLOWER,
}

impl Role {
    /// The byte that stands for the role in the cell that the heartbeat
    /// monitor writes and the scheduling loop reads.
    pub open spec fn spec_code(self) -> u8 {
        match self {
            Role::LEADER => 1,
            Role::FOLLOWER => 0,
        }
    }

    /// The role that a byte read from the cell stands for. Only the
    /// leader's own byte means `LEADER`: a cell that holds anything else
    /// is read as `FOLLOWER`.
    pub open spec fn spec_from_code(code: u8) -> Role {
        if code == 1 {
            Role::LEADER
        } else {
            Role::FOLLOWER
        }
    }

    /// The byte that stands for the role.
    #[verifier::when_used_as_spec(spec_code)]
    pub fn code(self) -> (code: u8)
        ensures
            code == self.spec_code(),
    {
        match self {
            Role::LEADER => 1,
            Role::FOLLOWER => 0,
        }
    }

    /// The role that a byte stands for.
    #[verifier::when_used_as_spec(spec_from_code)]
    pub fn from_code(code: u8) -> (role: Role)
        ensures
            role == Role::spec_from_code(code),
    {
        if code == 1 {
            Role::LEADER
        } else {
            Role::FOLLOWER
        }
    }
}

/// A role that is written to the cell is the role that is read back.
pub proof fn law_role_survives_the_cell(role: Role)
    ensures
        Role::spec_from_code(role.spec_code()) == role,
{
}

/// Whether a heartbeat sent at `timestamp` still counts at `now`.
pub open spec fn is_fresh(timestamp: int, now: int, window: int) -> bool {
    timestamp > now - window
}

/// Whether `a` comes before `b` when byte strings are ordered as in a
/// dictionary.
pub open spec fn bytes_before(a: Seq<u8>, b: Seq<u8>) -> bool
    decreases a.len(),
{
    if b.len() == 0 {
        false
    } else if a.len() == 0 {
        true
    } else if a[0] != b[0] {
        a[0] < b[0]
    } else {
        bytes_before(a.drop_first(), b.drop_first())
    }
}

/// Whether identity `a` is smaller than identity `b`: identities are
/// ordered by their UTF-8 bytes, as strings are.
pub open spec fn identity_before(a: Seq<char>, b: Seq<char>) -> bool {
    bytes_before(encode_utf8(a), encode_utf8(b))
}

/// Whether heartbeat `a` is to be preferred to `b`: its sender has the
/// smaller identity, or it is the later one of the same sender.
pub open spec fn outranks(a: Heartbeat, b: Heartbeat) -> bool {
    ||| identity_before(a.server@, b.server@)
    ||| (a.server@ == b.server@ && a.timestamp > b.timestamp)
}

/// Whether `winner` is the leading heartbeat among `heartbeats`: it is one
/// of them, it is fresh, and no fresh one is to be preferred to it.
pub open spec fn leads(winner: Heartbeat, heartbeats: Seq<Heartbeat>, now: int, window: int) -> bool {
    &&& heartbeats.contains(winner)
    &&& is_fresh(winner.timestamp as int, now, window)
    &&& forall|i: int|
        0 <= i < heartbeats.len() && is_fresh(heartbeats[i].timestamp as int, now, window)
            ==> !outranks(#[trigger] heartbeats[i], winner)
}

/// The role that follows from what the store answered when asked for the
/// leading heartbeat: `LEADER` only if it answered with a heartbeat of
/// `own`. No answer and a failed query both give `FOLLOWER`.
pub open spec fn role_of(found: Result<Option<Heartbeat>, DBError>, own: Seq<char>) -> Role {
    match found {
        Ok(Some(heartbeat)) => if heartbeat.server@ == own {
            Role::LEADER
        } else {
            Role::FOLLOWER
        },
        _ => Role::FOLLOWER,
    }
}

/// No byte string comes before itself.
pub proof fn lemma_bytes_before_irreflexive(a: Seq<u8>)
    ensures
        !bytes_before(a, a),
    decreases a.len(),
{
    if a.len() > 0 {
        lemma_bytes_before_irreflexive(a.drop_first());
    }
}

/// Of two distinct byte strings one comes before the other, and never both.
pub proof fn lemma_bytes_before_total(a: Seq<u8>, b: Seq<u8>)
    ensures
        a != b ==> (bytes_before(a, b) || bytes_before(b, a)),
        !(bytes_before(a, b) && bytes_before(b, a)),
    decreases a.len(),
{
    if a.len() == 0 || b.len() == 0 {
        if a.len() == 0 && b.len() == 0 {
            assert(a =~= b);
        }
    } else if a[0] == b[0] {
        lemma_bytes_before_total(a.drop_first(), b.drop_first());
        if a.drop_first() == b.drop_first() {
            assert(a =~= seq![a[0]] + a.drop_first());
            assert(b =~= seq![b[0]] + b.drop_first());
        }
    }
}

/// Two leading heartbeats of the same collection have the same sender and
/// the same time: the rule picks one instance.
pub proof fn law_leader_is_unique(
    a: Heartbeat,
    b: Heartbeat,
    heartbeats: Seq<Heartbeat>,
    now: int,
    window: int,
)
    requires
        leads(a, heartbeats, now, window),
        leads(b, heartbeats, now, window),
    ensures
        a.server@ == b.server@,
        a.timestamp == b.timestamp,
{
    let i = choose|i: int| 0 <= i < heartbeats.len() && heartbeats[i] == a;
    let j = choose|j: int| 0 <= j < heartbeats.len() && heartbeats[j] == b;
    assert(!outranks(heartbeats[i], b));
    assert(!outranks(heartbeats[j], a));
    lemma_bytes_before_total(encode_utf8(a.server@), encode_utf8(b.server@));
    if encode_utf8(a.server@) == encode_utf8(b.server@) {
        encode_utf8_decode_utf8(a.server@);
        encode_utf8_decode_utf8(b.server@);
    }
}

/// Whether `a` comes before `b` in dictionary order of their bytes.
fn comes_before(a: &str, b: &str) -> (before: bool)
    ensures
        before == identity_before(a@, b@),
{
    let left = a.as_bytes();
    let right = b.as_bytes();
    let mut i: usize = 0;
    assert(left@.skip(0) =~= left@);
    assert(right@.skip(0) =~= right@);
    while i < left.len() && i < right.len()
        invariant
            i <= left.len(),
            i <= right.len(),
            left@ == encode_utf8(a@),
            right@ == encode_utf8(b@),
            bytes_before(left@, right@) == bytes_before(left@.skip(i as int), right@.skip(i as int)),
        decreases left.len() - i,
    {
        proof {
            assert(left@.skip(i as int).drop_first() =~= left@.skip(i + 1));
            assert(right@.skip(i as int).drop_first() =~= right@.skip(i + 1));
        }
        if left[i] != right[i] {
            proof {
                let rest_left = left@.skip(i as int);
                let rest_right = right@.skip(i as int);
                assert(rest_left.len() > 0 && rest_right.len() > 0);
                assert(rest_left[0] == left@[i as int]);
                assert(rest_right[0] == right@[i as int]);
                assert(bytes_before(rest_left, rest_right) == (rest_left[0] < rest_right[0]));
            }
            return left[i] < right[i];
        }
        i += 1;
    }
    i < right.len()
}

/// Picks the leading heartbeat among `heartbeats` as seen at `now`: of the
/// heartbeats sent less than `window` seconds ago, the latest one of the
/// sender with the smallest identity. `None` means that no heartbeat is
/// fresh.
pub fn most_recent_heartbeat(heartbeats: &Vec<Heartbeat>, now: i64, window: i64) -> (found: Option<
    Heartbeat,
>)
    ensures
        match found {
            Some(winner) => leads(winner, heartbeats@, now as int, window as int),
            None => forall|i: int|
                0 <= i < heartbeats.len() ==> !is_fresh(
                    (#[trigger] heartbeats[i]).timestamp as int,
                    now as int,
                    window as int,
                ),
        },
{
    let mut best: Option<usize> = None;
    let mut i: usize = 0;
    while i < heartbeats.len()
        invariant
            i <= heartbeats.len(),
            match best {
                Some(at) => {
                    &&& at < i
                    &&& is_fresh(heartbeats[at as int].timestamp as int, now as int, window as int)
                    &&& forall|j: int|
                        0 <= j < i && is_fresh(
                            heartbeats[j].timestamp as int,
                            now as int,
                            window as int,
                        ) ==> !outranks(#[trigger] heartbeats[j], heartbeats[at as int])
                },
                None => forall|j: int|
                    0 <= j < i ==> !is_fresh(
                        (#[trigger] heartbeats[j]).timestamp as int,
                        now as int,
                        window as int,
                    ),
            },
        decreases heartbeats.len() - i,
    {
        let candidate = &heartbeats[i];
        if candidate.timestamp as i128 > now as i128 - window as i128 {
            match best {
                None => {
                    proof {
                        lemma_bytes_before_irreflexive(encode_utf8(candidate.server@));
                    }
                    best = Some(i);
                },
                Some(at) => {
                    let current = &heartbeats[at];
                    let smaller = comes_before(candidate.server.as_str(), current.server.as_str());
                    let same = candidate.server == current.server;
                    proof {
                        lemma_bytes_before_irreflexive(encode_utf8(candidate.server@));
                    }
                    if smaller || (same && candidate.timestamp > current.timestamp) {
                        proof {
                            assert forall|j: int|
                                0 <= j < i && is_fresh(
                                    heartbeats[j].timestamp as int,
                                    now as int,
                                    window as int,
                                ) implies !outranks(#[trigger] heartbeats[j], *candidate) by {
                                if outranks(heartbeats[j], *candidate) {
                                    lemma_outranks_transitive(heartbeats[j], *candidate, *current);
                                }
                            }
                        }
                        best = Some(i);
                    }
                },
            }
        }
        i += 1;
    }
    match best {
        Some(at) => {
            let winner = heartbeats[at].clone();
            assert(heartbeats@[at as int] == winner);
            Some(winner)
        },
        None => None,
    }
}

/// Preference among heartbeats carries over: what is preferred to a
/// heartbeat is preferred to everything that heartbeat is preferred to.
pub proof fn lemma_outranks_transitive(a: Heartbeat, b: Heartbeat, c: Heartbeat)
    requires
        outranks(a, b),
        outranks(b, c),
    ensures
        outranks(a, c),
{
    if identity_before(a.server@, b.server@) && identity_before(b.server@, c.server@) {
        lemma_bytes_before_transitive(
            encode_utf8(a.server@),
            encode_utf8(b.server@),
            encode_utf8(c.server@),
        );
    }
}

/// Dictionary order carries over.
pub proof fn lemma_bytes_before_transitive(a: Seq<u8>, b: Seq<u8>, c: Seq<u8>)
    requires
        bytes_before(a, b),
        bytes_before(b, c),
    ensures
        bytes_before(a, c),
    decreases a.len(),
{
    if a.len() > 0 && a[0] == b[0] && b[0] == c[0] {
        lemma_bytes_before_transitive(a.drop_first(), b.drop_first(), c.drop_first());
    }
}

/// The role that follows from the store's answer, for the instance `server`.
pub fn role_from_heartbeat(found: &Result<Option<Heartbeat>, DBError>, server: &str) -> (role: Role)
    ensures
        role == role_of(*found, server@),
{
    match found {
        Ok(Some(heartbeat)) => {
            let own = server.to_owned();
            if heartbeat.server == own {
                Role::LEADER
            } else {
                Role::FOLLOWER
            }
        },
        _ => Role::FOLLOWER,
    }
}

/// The identity that an instance has by its configuration: the name that
/// is configured, or `test` for a lone instance that was given none.
pub open spec fn identity_of(config: Config) -> Seq<char> {
    match config.server_name {
        Some(name) => name@,
        None => "test"@,
    }
}

/// The identity under which this instance sends its heartbeats.
pub fn server_name(config: &Config) -> (name: String)
    ensures
        name@ == identity_of(*config),
{
    match &config.server_name {
        Some(name) => name.clone(),
        None => String::from_str("test"),
    }
}

/// Sends the heartbeat of the instance `server` and says whether the store
/// took it: the store is asked to record a heartbeat of `server`, and the
/// result is whether its answer was a success. A heartbeat that is lost
/// costs availability, never correctness, so the caller only logs a
/// failure. Without a connection nothing is sent.
pub fn heartbeat<D: DB>(connection: &Result<D, DBError>, server: &str) -> (sent: bool)
    ensures
        match *connection {
            Ok(db) => exists|outcome: Result<(), DBError>| #[trigger]
                db.heartbeat_sent(server@, outcome) && sent == (outcome is Ok),
            Err(_) => !sent,
        },
{
    match connection {
        Ok(db) => {
            let outcome = db.send_heartbeat(server);
            assert(db.heartbeat_sent(server@, outcome));
            outcome.is_ok()
        },
        Err(_) => false,
    }
}

/// The role that the instance `server` should assume now: the store is
/// asked for the leading heartbeat, and the role is what `role_of` makes
/// of its answer for `server`. Without a connection, and whenever the
/// store fails, that is `FOLLOWER`: the decision never fails open.
pub fn role_should_assume<D: DB>(connection: &Result<D, DBError>, server: &str) -> (role: Role)
    ensures
        match *connection {
            Ok(db) => exists|found: Result<Option<Heartbeat>, DBError>| #[trigger]
                db.heartbeat_found(found) && role == role_of(found, server@),
            Err(_) => role == Role::FOLLOWER,
        },
{
    match connection {
        Ok(db) => {
            let found = db.most_recent_heartbeat();
            let role = role_from_heartbeat(&found, server);
            assert(db.heartbeat_found(found) && role == role_of(found, server@));
            role
        },
        Err(_) => Role::FOLLOWER,
    }
}

/// One beat of the heartbeat monitor of the instance `server`: publish its
/// liveness, then derive its role anew from the store's answer. A
/// heartbeat that the store refuses does not stop the role from being
/// derived. The caller writes the role into the cell that the scheduling
/// loop reads, and sleeps until the next beat.
pub fn run_health_checks<D: DB>(connection: &Result<D, DBError>, server: &str) -> (role: Role)
    ensures
        match *connection {
            Ok(db) => {
                &&& exists|outcome: Result<(), DBError>| #[trigger]
                    db.heartbeat_sent(server@, outcome)
                &&& exists|found: Result<Option<Heartbeat>, DBError>| #[trigger]
                    db.heartbeat_found(found) && role == role_of(found, server@)
            },
            Err(_) => role == Role::FOLLOWER,
        },
{
    let _sent = heartbeat(connection, server);
    role_should_assume(connection, server)
}

} // verus!
