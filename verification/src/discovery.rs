//! Discovery: the beacon's self-announcement and the listener's handling of
//! inbound announcement datagrams. An announcement is a small JSON record on
//! the wire; the listener drops anything foreign, malformed, or echoed back
//! from this very process, and records every other announcer in the registry
//! under the datagram's source address.

use vstd::prelude::*;
use crate::addr::PeerAddr;
use crate::registry::{PeerIdentity, Registry, RegistryView};
use crate::DISCOVERY_PORT;

verus! {

/// The application tag that marks an announcement as belonging to this
/// protocol family.
pub open spec fn app_tag() -> Seq<char> {
    "vdrop"@
}

/// One discovery announcement: the protocol tag, the sender's display name,
/// its service port, and its per-process instance identifier.
pub struct Announcement {
    pub app: String,
    pub device_name: String,
    pub port: u16,
    pub instance_id: String,
}

/// What parsing an announcement datagram yields: the tag, display name, port
/// and instance identifier, or nothing when the payload is not a structurally
/// valid announcement record.
pub uninterp spec fn parsed_announcement(bytes: Seq<u8>) -> Option<
    (Seq<char>, Seq<char>, u16, Seq<char>),
>;

/// Relies on `serde_json::from_slice` and `serde_json::Value`'s accessors
/// (`get`, `as_str`, `as_u64`): an announcement datagram is a JSON record
/// with the string fields `app`, `device_name`, `instance_id` and the integer
/// field `port`; any payload that is not such a record yields nothing. The
/// outcome depends on the bytes alone.
#[verifier::external_body]
fn parse_announcement(bytes: &[u8]) -> (r: Option<Announcement>)
    ensures
        match r {
            Some(a) => parsed_announcement(bytes@) == Some(
                (a.app@, a.device_name@, a.port, a.instance_id@),
            ),
            None => parsed_announcement(bytes@) is None,
        },
{
    let v: serde_json::Value = serde_json::from_slice(bytes).ok()?;
    let app = v.get("app")?.as_str()?.to_owned();
    let device_name = v.get("device_name")?.as_str()?.to_owned();
    let port = u16::try_from(v.get("port")?.as_u64()?).ok()?;
    let instance_id = v.get("instance_id")?.as_str()?.to_owned();
    Some(Announcement { app, device_name, port, instance_id })
}

/// Relies on `serde_json::to_vec` over a JSON object holding the four fields:
/// serializing a JSON value cannot fail, and what it writes is exactly the
/// record that parsing reads back.
#[verifier::external_body]
fn encode_announcement(a: &Announcement) -> (r: Vec<u8>)
    ensures
        parsed_announcement(r@) == Some((a.app@, a.device_name@, a.port, a.instance_id@)),
{
    let mut m = serde_json::Map::new();
    m.insert("app".to_owned(), serde_json::Value::String(a.app.clone()));
    m.insert("device_name".to_owned(), serde_json::Value::String(a.device_name.clone()));
    m.insert("port".to_owned(), serde_json::Value::from(a.port));
    m.insert("instance_id".to_owned(), serde_json::Value::String(a.instance_id.clone()));
    serde_json::to_vec(&serde_json::Value::Object(m)).expect("serializing a JSON value cannot fail")
}

/// Relies on `uuid::Uuid::new_v4` and its display form: a freshly random
/// version-4 identifier rendered in the 36-character hyphenated form. The
/// value is random, so nothing relates two calls; only the length is fixed.
#[verifier::external_body]
fn fresh_instance_id() -> (r: String)
    ensures
        r@.len() == 36,
{
    uuid::Uuid::new_v4().to_string()
}

/// This process's own discovery identity: its display name and the instance
/// identifier that lets it recognize and discard its own broadcast echoes.
pub struct SelfIdentity {
    pub device_name: String,
    pub instance_id: String,
}

impl SelfIdentity {
    /// The identity taken at process launch: the given display name and a
    /// freshly random instance identifier.
    pub fn generate(device_name: String) -> (r: SelfIdentity)
        ensures
            r.device_name@ == device_name@,
            r.instance_id@.len() == 36,
    {
        SelfIdentity { device_name, instance_id: fresh_instance_id() }
    }

    /// The announcement this process broadcasts: this protocol's tag, the
    /// process's display name and instance identifier, and the fixed port.
    pub fn announcement(&self) -> (r: Announcement)
        ensures
            r.app@ == app_tag(),
            r.device_name@ == self.device_name@,
            r.port == DISCOVERY_PORT,
            r.instance_id@ == self.instance_id@,
    {
        Announcement {
            app: "vdrop".to_owned(),
            device_name: self.device_name.clone(),
            port: DISCOVERY_PORT,
            instance_id: self.instance_id.clone(),
        }
    }

    /// The serialized datagram the beacon sends at every interval: it parses
    /// back to exactly this process's announcement.
    pub fn beacon_datagram(&self) -> (r: Vec<u8>)
        ensures
            parsed_announcement(r@) == Some(
                (app_tag(), self.device_name@, DISCOVERY_PORT, self.instance_id@),
            ),
    {
        let a = self.announcement();
        encode_announcement(&a)
    }
}

/// What the listener did with one datagram.
#[derive(PartialEq, Eq, Structural, Debug, Clone, Copy)]
pub enum DatagramOutcome {
    /// The sender was recorded or refreshed in the registry.
    Registered,
    /// The datagram was ignored: unparsable, foreign, or this process's own echo.
    Ignored,
}

/// Whether a datagram gets its sender recorded: it parses as an announcement,
/// carries this protocol's tag, and does not carry the listener's own
/// instance identifier.
pub open spec fn datagram_accepted(bytes: Seq<u8>, own_id: Seq<char>) -> bool {
    match parsed_announcement(bytes) {
        Some((app, _name, _port, id)) => app == app_tag() && id != own_id,
        None => false,
    }
}

/// The registry after one datagram: unchanged unless the datagram is
/// accepted, in which case the announcer's display name is recorded under the
/// datagram's source address with last-seen instant `now`.
pub open spec fn datagram_view(
    m: RegistryView,
    bytes: Seq<u8>,
    src: PeerAddr,
    own_id: Seq<char>,
    now: u64,
) -> RegistryView {
    match parsed_announcement(bytes) {
        Some((app, name, _port, id)) => if app == app_tag() && id != own_id {
            m.insert(src, (name, now))
        } else {
            m
        },
        None => m,
    }
}

/// Handle one inbound datagram, received from source address `src` at instant
/// `now`. The source address keys the registry — not anything the payload
/// claims — so an entry always names the address the peer was actually
/// reachable from.
pub fn handle_datagram(
    registry: &mut Registry,
    bytes: &[u8],
    src: PeerAddr,
    own: &SelfIdentity,
    now: u64,
) -> (r: DatagramOutcome)
    requires
        old(registry).wf(),
    ensures
        final(registry).wf(),
        final(registry)@ == datagram_view(old(registry)@, bytes@, src, own.instance_id@, now),
        r == (if datagram_accepted(bytes@, own.instance_id@) {
            DatagramOutcome::Registered
        } else {
            DatagramOutcome::Ignored
        }),
{
    match parse_announcement(bytes) {
        Some(a) => {
            if a.app == "vdrop".to_owned() && !(a.instance_id == own.instance_id) {
                let identity = PeerIdentity { addr: src, name: a.device_name };
                registry.upsert(identity, now);
                DatagramOutcome::Registered
            } else {
                DatagramOutcome::Ignored
            }
        },
        None => DatagramOutcome::Ignored,
    }
}

/// Self-suppression: an announcement carrying the listener's own instance
/// identifier never changes the registry, whatever display name or port it
/// carries.
pub proof fn lemma_self_echo_ignored(
    m: RegistryView,
    bytes: Seq<u8>,
    src: PeerAddr,
    own_id: Seq<char>,
    now: u64,
)
    requires
        parsed_announcement(bytes) matches Some(f) && f.3 == own_id,
    ensures
        datagram_view(m, bytes, src, own_id, now) == m,
        !datagram_accepted(bytes, own_id),
{
}

/// A datagram with an unrecognized application tag, or one that does not
/// parse as an announcement at all, leaves the registry unchanged.
pub proof fn lemma_foreign_datagram_ignored(
    m: RegistryView,
    bytes: Seq<u8>,
    src: PeerAddr,
    own_id: Seq<char>,
    now: u64,
)
    requires
        match parsed_announcement(bytes) {
            Some(f) => f.0 != app_tag(),
            None => true,
        },
    ensures
        datagram_view(m, bytes, src, own_id, now) == m,
        !datagram_accepted(bytes, own_id),
{
}

} // verus!
