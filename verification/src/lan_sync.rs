//! Syncing decks between devices on the local network: the packages sent,
//! the table of peers heard from, what an imported package becomes, and
//! the addresses and HTTP heads used.  Sockets, the store and the clock
//! belong to the caller.
use vstd::prelude::*;
use crate::ai::blank;
use crate::normalize::lit_string;
use crate::problem::{copy_problem, opt_view, Problem, ProblemV};
use crate::problem_export::or_empty;
use crate::store::ImportSummary;
use crate::text::{
    chars_of, contains_seq, contains_str, decimal, decimal_chars, extend_chars, extend_str,
    is_blank_str, starts_with, starts_with_str, str_eq, string_of, trim, trim_chars,
    trim_start_set, trim_start_set_chars,
};

verus! {

/// The port peers announce themselves on.
pub const DISCOVERY_PORT: u16 = 53492;

/// The port the sync server tries first.
pub const HTTP_PREFERRED_PORT: u16 = 53493;

/// Where a device serves its package.
pub const EXPORT_PATH: &'static str = "/sync/export";

/// The setting holding this device's id.
pub const DEVICE_ID_KEY: &'static str = "lan_sync_device_id";

/// How long, in seconds, a peer stays listed after its last announcement.
pub const PEER_TIMEOUT_SECS: u64 = 12;

/// A deck as sent to another device.
#[derive(Debug, Clone)]
pub struct SyncDeckPackage {
    pub name: String,
    pub source_path: String,
    pub problems: Vec<Problem>,
}

/// Everything a device sends when asked.
#[derive(Debug, Clone)]
pub struct SyncPackage {
    pub app: String,
    pub version: u32,
    pub exported_at: u64,
    pub device_id: String,
    pub device_name: String,
    pub decks: Vec<SyncDeckPackage>,
}

/// What a device broadcasts about itself.
#[derive(Debug, Clone)]
pub struct SyncAnnouncement {
    pub app: String,
    pub device_id: String,
    pub device_name: String,
    pub addr: String,
}

/// A device heard from.
#[derive(Debug, Clone)]
pub struct DiscoveredSyncPeer {
    pub device_id: String,
    pub device_name: String,
    pub addr: String,
    pub last_seen: u64,
}

/// What importing a package did.
#[derive(Debug, Clone, Default)]
pub struct SyncImportSummary {
    pub decks: usize,
    pub imported: usize,
    pub inserted: usize,
    pub updated: usize,
}

// ------------------------------------------------------------------
// Importing a package
// ------------------------------------------------------------------
/// A package this version can import: from ShuaForge, format version 1.
pub open spec fn compatible(p: SyncPackage) -> bool {
    p.app@ == "ShuaForge"@ && p.version == 1
}

/// Where an imported deck is recorded as coming from.
pub open spec fn sync_source(device_id: Seq<char>, source_path: Seq<char>) -> Seq<char> {
    "lan-sync://"@ + device_id + "/"@ + trim_start_set(trim(source_path), seq!['/'])
}

pub fn sync_source_path(device_id: &str, source_path: &str) -> (r: String)
    ensures
        r@ == sync_source(device_id@, source_path@),
{
    let mut out = chars_of("lan-sync://");
    extend_str(&mut out, device_id);
    extend_str(&mut out, "/");
    let slash = vec!['/'];
    assert(slash@ =~= seq!['/']);
    extend_chars(&mut out, &trim_start_set_chars(&trim_chars(&chars_of(source_path)), &slash));
    string_of(&out)
}

/// A problem of a received deck: the deck's name where it names none.
pub open spec fn with_sync_deck(p: ProblemV, deck_name: Seq<char>) -> ProblemV {
    ProblemV {
        deck_name: if blank(or_empty(p.deck_name)) {
            Some(deck_name)
        } else {
            p.deck_name
        },
        ..p
    }
}

/// One deck to import: where it is recorded as coming from, and its
/// problems.
pub struct SyncDeckImport {
    pub source: String,
    pub problems: Vec<Problem>,
}

fn deck_import(device_id: &str, deck: &SyncDeckPackage) -> (r: SyncDeckImport)
    ensures
        r.source@ == sync_source(device_id@, deck.source_path@),
        r.problems@.len() == deck.problems@.len(),
        forall|i: int|
            0 <= i < deck.problems@.len() ==> (#[trigger] r.problems@[i])@ == with_sync_deck(
                deck.problems@[i]@,
                deck.name@,
            ),
{
    let mut out: Vec<Problem> = Vec::new();
    let mut i: usize = 0;
    while i < deck.problems.len()
        invariant
            i <= deck.problems@.len(),
            out@.len() == i,
            forall|k: int|
                0 <= k < i ==> (#[trigger] out@[k])@ == with_sync_deck(deck.problems@[k]@, deck.name@),
        decreases deck.problems@.len() - i,
    {
        let mut p = copy_problem(&deck.problems[i]);
        let name_blank = match &p.deck_name {
            Some(n) => is_blank_str(n.as_str()),
            None => {
                assert(trim(Seq::<char>::empty()) =~= Seq::<char>::empty());
                true
            },
        };
        if name_blank {
            p.deck_name = Some(deck.name.clone());
        }
        assert(p@ == with_sync_deck(deck.problems@[i as int]@, deck.name@));
        out.push(p);
        i = i + 1;
    }
    SyncDeckImport { source: sync_source_path(device_id, deck.source_path.as_str()), problems: out }
}

/// The decks of a package to import, in order; refused when the package
/// is not one this version reads.
pub fn prepare_sync_import(package: &SyncPackage) -> (r: Result<Vec<SyncDeckImport>, String>)
    ensures
        !compatible(*package) ==> (r matches Err(m) && m@ == "同步包格式不兼容"@),
        compatible(*package) ==> (r matches Ok(v) && v@.len() == package.decks@.len() && forall|
            i: int,
        |
            0 <= i < v@.len() ==> {
                let d = package.decks@[i];
                let x = #[trigger] v@[i];
                &&& x.source@ == sync_source(package.device_id@, d.source_path@)
                &&& x.problems@.len() == d.problems@.len()
                &&& forall|k: int|
                    0 <= k < d.problems@.len() ==> (#[trigger] x.problems@[k])@ == with_sync_deck(
                        d.problems@[k]@,
                        d.name@,
                    )
            }),
{
    if !str_eq(package.app.as_str(), "ShuaForge") || package.version != 1 {
        return Err(lit_string("同步包格式不兼容"));
    }
    let mut out: Vec<SyncDeckImport> = Vec::new();
    let mut i: usize = 0;
    while i < package.decks.len()
        invariant
            i <= package.decks@.len(),
            out@.len() == i,
            forall|j: int|
                0 <= j < i ==> {
                    let d = package.decks@[j];
                    let x = #[trigger] out@[j];
                    &&& x.source@ == sync_source(package.device_id@, d.source_path@)
                    &&& x.problems@.len() == d.problems@.len()
                    &&& forall|k: int|
                        0 <= k < d.problems@.len() ==> (#[trigger] x.problems@[k])@ == with_sync_deck(
                            d.problems@[k]@,
                            d.name@,
                        )
                },
        decreases package.decks@.len() - i,
    {
        let d = deck_import(package.device_id.as_str(), &package.decks[i]);
        out.push(d);
        i = i + 1;
    }
    Ok(out)
}

impl SyncImportSummary {
    /// Counts one more imported deck.
    pub fn add_deck(&mut self, import: &ImportSummary)
        requires
            old(self).decks < usize::MAX,
            old(self).imported + import.imported <= usize::MAX,
            old(self).inserted + import.inserted <= usize::MAX,
            old(self).updated + import.updated <= usize::MAX,
        ensures
            final(self).decks == old(self).decks + 1,
            final(self).imported == old(self).imported + import.imported,
            final(self).inserted == old(self).inserted + import.inserted,
            final(self).updated == old(self).updated + import.updated,
    {
        self.decks = self.decks + 1;
        self.imported = self.imported + import.imported;
        self.inserted = self.inserted + import.inserted;
        self.updated = self.updated + import.updated;
    }
}

// ------------------------------------------------------------------
// Peers
// ------------------------------------------------------------------
pub struct PeerView {
    pub device_id: Seq<char>,
    pub device_name: Seq<char>,
    pub addr: Seq<char>,
    pub last_seen: u64,
}

impl View for DiscoveredSyncPeer {
    type V = PeerView;

    open spec fn view(&self) -> PeerView {
        PeerView {
            device_id: self.device_id@,
            device_name: self.device_name@,
            addr: self.addr@,
            last_seen: self.last_seen,
        }
    }
}

fn copy_peer(p: &DiscoveredSyncPeer) -> (r: DiscoveredSyncPeer)
    ensures
        r@ == p@,
{
    DiscoveredSyncPeer {
        device_id: p.device_id.clone(),
        device_name: p.device_name.clone(),
        addr: p.addr.clone(),
        last_seen: p.last_seen,
    }
}

/// The devices heard from, one entry per device.
pub struct PeerTable {
    peers: Vec<DiscoveredSyncPeer>,
}

pub open spec fn peer_views(v: Seq<DiscoveredSyncPeer>) -> Seq<PeerView> {
    v.map_values(|p: DiscoveredSyncPeer| p@)
}

impl View for PeerTable {
    type V = Seq<PeerView>;

    closed spec fn view(&self) -> Seq<PeerView> {
        peer_views(self.peers@)
    }
}

/// No device is listed twice.
pub open spec fn distinct_devices(ps: Seq<PeerView>) -> bool {
    forall|i: int, j: int| 0 <= i < j < ps.len() ==> #[trigger] ps[i].device_id != #[trigger] ps[j].device_id
}

/// The position of a device in the table.
pub open spec fn peer_index(ps: Seq<PeerView>, id: Seq<char>) -> Option<int>
    decreases ps.len(),
{
    if ps.len() == 0 {
        None
    } else if ps.last().device_id == id {
        Some(ps.len() - 1)
    } else {
        peer_index(ps.drop_last(), id)
    }
}

proof fn lemma_peer_index(ps: Seq<PeerView>, id: Seq<char>)
    ensures
        match peer_index(ps, id) {
            Some(k) => 0 <= k < ps.len() && ps[k].device_id == id,
            None => forall|j: int| 0 <= j < ps.len() ==> (#[trigger] ps[j]).device_id != id,
        },
    decreases ps.len(),
{
    if ps.len() > 0 {
        lemma_peer_index(ps.drop_last(), id);
        if ps.last().device_id != id {
            assert forall|j: int| 0 <= j < ps.len() - 1 implies (#[trigger] ps[j]).device_id
                == ps.drop_last()[j].device_id by {}
        }
    }
}

/// The table after hearing `a` at `now`: announcements from other apps and
/// from this device itself are ignored; a device already listed is
/// updated in place.
pub open spec fn heard(ps: Seq<PeerView>, a: SyncAnnouncement, own_id: Option<Seq<char>>, now: u64) -> Seq<
    PeerView,
> {
    if a.app@ != "ShuaForge"@ || own_id == Some(a.device_id@) {
        ps
    } else {
        let p = PeerView {
            device_id: a.device_id@,
            device_name: a.device_name@,
            addr: a.addr@,
            last_seen: now,
        };
        match peer_index(ps, a.device_id@) {
            Some(k) => ps.update(k, p),
            None => ps.push(p),
        }
    }
}

/// A peer heard at `seen` is still listed at `now`.
pub open spec fn peer_fresh(now: u64, seen: u64) -> bool {
    (if now >= seen {
        now - seen
    } else {
        0
    }) < PEER_TIMEOUT_SECS
}

pub open spec fn fresh_peers(ps: Seq<PeerView>, now: u64) -> Seq<PeerView>
    decreases ps.len(),
{
    if ps.len() == 0 {
        ps
    } else if peer_fresh(now, ps.last().last_seen) {
        fresh_peers(ps.drop_last(), now).push(ps.last())
    } else {
        fresh_peers(ps.drop_last(), now)
    }
}

/// Most recently heard first.
pub open spec fn by_recency(ps: Seq<PeerView>) -> bool {
    forall|i: int, j: int| 0 <= i < j < ps.len() ==> (#[trigger] ps[i]).last_seen >= (#[trigger] ps[j]).last_seen
}

proof fn lemma_fresh_peers_members(ps: Seq<PeerView>, now: u64)
    ensures
        forall|x: PeerView| #[trigger] fresh_peers(ps, now).contains(x) ==> ps.contains(x),
    decreases ps.len(),
{
    if ps.len() > 0 {
        lemma_fresh_peers_members(ps.drop_last(), now);
        let f = fresh_peers(ps, now);
        let fd = fresh_peers(ps.drop_last(), now);
        assert forall|x: PeerView| #[trigger] f.contains(x) implies ps.contains(x) by {
            let k = choose|k: int| 0 <= k < f.len() && f[k] == x;
            if k < fd.len() {
                assert(fd[k] == x);
                assert(fd.contains(x));
                let j = choose|j: int| 0 <= j < ps.drop_last().len() && ps.drop_last()[j] == x;
                assert(ps[j] == x);
            } else {
                assert(ps[ps.len() - 1] == x);
            }
        }
    }
}

proof fn lemma_fresh_peers_distinct(ps: Seq<PeerView>, now: u64)
    requires
        distinct_devices(ps),
    ensures
        distinct_devices(fresh_peers(ps, now)),
    decreases ps.len(),
{
    if ps.len() > 0 {
        let d = ps.drop_last();
        assert(distinct_devices(d)) by {
            assert forall|i: int, j: int| 0 <= i < j < d.len() implies #[trigger] d[i].device_id
                != #[trigger] d[j].device_id by {
                assert(d[i] == ps[i] && d[j] == ps[j]);
            }
        }
        lemma_fresh_peers_distinct(d, now);
        lemma_fresh_peers_members(d, now);
        let f = fresh_peers(ps, now);
        let fd = fresh_peers(d, now);
        if peer_fresh(now, ps.last().last_seen) {
            assert forall|i: int, j: int| 0 <= i < j < f.len() implies #[trigger] f[i].device_id
                != #[trigger] f[j].device_id by {
                if j == fd.len() {
                    assert(fd.contains(fd[i]));
                    let k = choose|k: int| 0 <= k < d.len() && d[k] == fd[i];
                    assert(ps[k] == d[k]);
                } else {
                    assert(f[i] == fd[i] && f[j] == fd[j]);
                }
            }
        }
    }
}

impl PeerTable {
    pub closed spec fn wf(&self) -> bool {
        distinct_devices(self@)
    }

    pub fn new() -> (r: Self)
        ensures
            r.wf(),
            r@ == Seq::<PeerView>::empty(),
    {
        let r = PeerTable { peers: Vec::new() };
        assert(r@ =~= Seq::<PeerView>::empty());
        r
    }

    /// Notes an announcement heard at `now`.
    pub fn record_announcement(&mut self, a: &SyncAnnouncement, own_device_id: Option<&str>, now: u64)
        requires
            old(self).wf(),
        ensures
            final(self).wf(),
            final(self)@ == heard(old(self)@, *a, match own_device_id {
                Some(s) => Some(s@),
                None => None,
            }, now),
    {
        let own = match own_device_id {
            Some(id) => str_eq(id, a.device_id.as_str()),
            None => false,
        };
        if !str_eq(a.app.as_str(), "ShuaForge") || own {
            return;
        }
        let ghost ps = self@;
        proof {
            lemma_peer_index(ps, a.device_id@);
        }
        let peer = DiscoveredSyncPeer {
            device_id: a.device_id.clone(),
            device_name: a.device_name.clone(),
            addr: a.addr.clone(),
            last_seen: now,
        };
        let mut i: usize = self.peers.len();
        let mut found: Option<usize> = None;
        assert(ps.take(ps.len() as int) =~= ps);
        while i > 0 && found.is_none()
            invariant
                i <= self.peers@.len(),
                ps == self@,
                ps.len() == self.peers@.len(),
                found is None ==> peer_index(ps.take(i as int), a.device_id@) == peer_index(
                    ps,
                    a.device_id@,
                ),
                found is Some ==> peer_index(ps, a.device_id@) == Some(found->0 as int) && found->0
                    < ps.len(),
            decreases i,
        {
            let ghost t = ps.take(i as int);
            assert(t.drop_last() =~= ps.take(i - 1));
            assert(t.last() == ps[i - 1]);
            if str_eq(self.peers[i - 1].device_id.as_str(), a.device_id.as_str()) {
                found = Some(i - 1);
            }
            i = i - 1;
        }
        if found.is_none() {
            assert(ps.take(0) =~= Seq::<PeerView>::empty());
        }
        let ghost pv = peer@;
        match found {
            Some(k) => {
                self.peers.set(k, peer);
                assert(self@ =~= ps.update(k as int, pv));
                assert forall|x: int, y: int| 0 <= x < y < self@.len() implies #[trigger] self@[x].device_id
                    != #[trigger] self@[y].device_id by {
                    assert(self@[x].device_id == ps[x].device_id);
                    assert(self@[y].device_id == ps[y].device_id);
                }
            },
            None => {
                self.peers.push(peer);
                assert(self@ =~= ps.push(pv));
            },
        }
    }

    /// The peers still listed at `now` (older ones are forgotten), most
    /// recently heard first.
    pub fn discovered_peers(&mut self, now: u64) -> (r: Vec<DiscoveredSyncPeer>)
        requires
            old(self).wf(),
        ensures
            final(self).wf(),
            final(self)@ == fresh_peers(old(self)@, now),
            by_recency(peer_views(r@)),
            distinct_devices(peer_views(r@)),
            peer_views(r@).len() == final(self)@.len(),
            forall|x: PeerView| #[trigger] peer_views(r@).contains(x) <==> final(self)@.contains(x),
    {
        let ghost ps = self@;
        let mut kept: Vec<DiscoveredSyncPeer> = Vec::new();
        let mut i: usize = 0;
        while i < self.peers.len()
            invariant
                i <= self.peers@.len(),
                ps == self@,
                ps.len() == self.peers@.len(),
                peer_views(kept@) == fresh_peers(ps.take(i as int), now),
            decreases self.peers@.len() - i,
        {
            let ghost t1 = ps.take(i + 1);
            assert(t1.drop_last() =~= ps.take(i as int));
            assert(t1.last() == ps[i as int]);
            let seen = self.peers[i].last_seen;
            let age: u64 = if now >= seen {
                now - seen
            } else {
                0
            };
            if age < PEER_TIMEOUT_SECS {
                let ghost before = peer_views(kept@);
                kept.push(copy_peer(&self.peers[i]));
                assert(peer_views(kept@) =~= before.push(ps[i as int]));
            }
            i = i + 1;
        }
        assert(ps.take(ps.len() as int) =~= ps);
        proof {
            lemma_fresh_peers_distinct(ps, now);
        }
        let mut ranked: Vec<DiscoveredSyncPeer> = Vec::new();
        let ghost fv = peer_views(kept@);
        let mut m: usize = 0;
        assert(peer_views(ranked@) =~= Seq::<PeerView>::empty());
        while m < kept.len()
            invariant
                m <= kept@.len(),
                fv == peer_views(kept@),
                fv.len() == kept@.len(),
                distinct_devices(fv),
                by_recency(peer_views(ranked@)),
                distinct_devices(peer_views(ranked@)),
                peer_views(ranked@).len() == m,
                forall|x: PeerView|
                    #[trigger] peer_views(ranked@).contains(x) <==> fv.take(m as int).contains(x),
            decreases kept@.len() - m,
        {
            let ghost rv = peer_views(ranked@);
            let e = copy_peer(&kept[m]);
            assert(e@ == fv[m as int]);
            let mut p: usize = 0;
            while p < ranked.len() && ranked[p].last_seen >= e.last_seen
                invariant
                    p <= ranked@.len(),
                    rv == peer_views(ranked@),
                    rv.len() == ranked@.len(),
                    forall|k: int| 0 <= k < p ==> (#[trigger] rv[k]).last_seen >= e.last_seen,
                decreases ranked@.len() - p,
            {
                assert(rv[p as int] == ranked@[p as int]@);
                p = p + 1;
            }
            proof {
                if p < ranked@.len() {
                    assert(rv[p as int] == ranked@[p as int]@);
                }
            }
            let ghost ev = e@;
            ranked.insert(p, e);
            proof {
                let nv = peer_views(ranked@);
                assert(nv =~= rv.insert(p as int, ev));
                assert forall|a: int, b: int| 0 <= a < b < nv.len() implies (#[trigger] nv[a]).last_seen
                    >= (#[trigger] nv[b]).last_seen by {
                    if b < p {
                        assert(nv[a] == rv[a] && nv[b] == rv[b]);
                    } else if b == p {
                        assert(nv[a] == rv[a] && nv[b] == ev);
                    } else if a == p {
                        assert(nv[b] == rv[b - 1] && nv[a] == ev);
                        assert(rv[p as int].last_seen < ev.last_seen);
                        if b - 1 > p {
                            assert(rv[p as int].last_seen >= rv[b - 1].last_seen);
                        }
                    } else if a < p {
                        assert(nv[a] == rv[a] && nv[b] == rv[b - 1]);
                    } else {
                        assert(nv[a] == rv[a - 1] && nv[b] == rv[b - 1]);
                    }
                }
                let t0 = fv.take(m as int);
                let t1 = fv.take(m + 1);
                assert(t1 =~= t0.push(fv[m as int]));
                assert forall|x: PeerView| #[trigger] nv.contains(x) <==> t1.contains(x) by {
                    if nv.contains(x) {
                        let k = choose|k: int| 0 <= k < nv.len() && nv[k] == x;
                        if k < p {
                            assert(rv[k] == x);
                            assert(rv.contains(x));
                            assert(t0.contains(x));
                            let j = choose|j: int| 0 <= j < t0.len() && t0[j] == x;
                            assert(t1[j] == x);
                        } else if k > p {
                            assert(rv[k - 1] == x);
                            assert(rv.contains(x));
                            assert(t0.contains(x));
                            let j = choose|j: int| 0 <= j < t0.len() && t0[j] == x;
                            assert(t1[j] == x);
                        } else {
                            assert(t1[m as int] == x);
                        }
                    }
                    if t1.contains(x) {
                        let j = choose|j: int| 0 <= j < t1.len() && t1[j] == x;
                        if j < m {
                            assert(t0[j] == x);
                            assert(t0.contains(x));
                            assert(rv.contains(x));
                            let k = choose|k: int| 0 <= k < rv.len() && rv[k] == x;
                            if k < p {
                                assert(nv[k] == x);
                            } else {
                                assert(nv[k + 1] == x);
                            }
                        } else {
                            assert(nv[p as int] == x);
                        }
                    }
                }
                assert forall|k: int| 0 <= k < rv.len() implies (#[trigger] rv[k]).device_id != ev.device_id by {
                    let x = rv[k];
                    assert(rv.contains(x));
                    assert(t0.contains(x));
                    let j = choose|j: int| 0 <= j < t0.len() && t0[j] == x;
                    assert(fv[j] == x);
                    assert(fv[m as int] == ev);
                }
                assert forall|a: int, b: int| 0 <= a < b < nv.len() implies #[trigger] nv[a].device_id
                    != #[trigger] nv[b].device_id by {
                    if a == p {
                        assert(nv[a] == ev && nv[b] == rv[b - 1]);
                    } else if b == p {
                        assert(nv[b] == ev && nv[a] == rv[a]);
                    } else {
                        let ia = if a < p { a } else { a - 1 };
                        let ib = if b < p { b } else { b - 1 };
                        assert(nv[a] == rv[ia] && nv[b] == rv[ib]);
                        assert(ia < ib);
                    }
                }
            }
            m = m + 1;
        }
        assert(fv.take(fv.len() as int) =~= fv);
        self.peers = kept;
        ranked
    }
}

// ------------------------------------------------------------------
// Addresses and HTTP
// ------------------------------------------------------------------
/// The broadcast address of an IPv4 address's /24 network, with the
/// discovery port; `None` for text that is not four dot-separated parts.
pub open spec fn subnet_broadcast(ip: Seq<char>) -> Option<Seq<char>> {
    let parts = crate::text::split_set(ip, seq!['.']);
    if parts.len() == 4 {
        Some(parts[0] + "."@ + parts[1] + "."@ + parts[2] + ".255:53492"@)
    } else {
        None
    }
}

/// The addresses an announcement is sent to: the global broadcast, then
/// each local network's broadcast, without repeats.
pub open spec fn broadcast_list(ips: Seq<Seq<char>>) -> Seq<Seq<char>>
    decreases ips.len(),
{
    if ips.len() == 0 {
        seq!["255.255.255.255:53492"@]
    } else {
        let prev = broadcast_list(ips.drop_last());
        match subnet_broadcast(ips.last()) {
            Some(t) => if prev.contains(t) {
                prev
            } else {
                prev.push(t)
            },
            None => prev,
        }
    }
}

fn subnet_broadcast_exec(ip: &str) -> (r: Option<Vec<char>>)
    ensures
        match r {
            Some(v) => subnet_broadcast(ip@) == Some(v@),
            None => subnet_broadcast(ip@) is None,
        },
{
    let dot = vec!['.'];
    assert(dot@ =~= seq!['.']);
    let parts = crate::text::split_set_chars(&chars_of(ip), &dot);
    if parts.len() == 4 {
        let mut out: Vec<char> = Vec::new();
        extend_chars(&mut out, &parts[0]);
        extend_str(&mut out, ".");
        extend_chars(&mut out, &parts[1]);
        extend_str(&mut out, ".");
        extend_chars(&mut out, &parts[2]);
        extend_str(&mut out, ".255:53492");
        proof {
            crate::text::lemma_deep_chars(&parts@[0]);
            crate::text::lemma_deep_chars(&parts@[1]);
            crate::text::lemma_deep_chars(&parts@[2]);
        }
        Some(out)
    } else {
        None
    }
}

pub fn broadcast_targets(local_ips: &Vec<String>) -> (r: Vec<String>)
    ensures
        r.deep_view() == broadcast_list(local_ips.deep_view()),
{
    let mut targets: Vec<String> = Vec::new();
    targets.push(lit_string("255.255.255.255:53492"));
    let ghost ips = local_ips.deep_view();
    assert(targets.deep_view() =~= broadcast_list(ips.take(0)));
    let mut i: usize = 0;
    while i < local_ips.len()
        invariant
            i <= local_ips@.len(),
            ips == local_ips.deep_view(),
            ips.len() == local_ips@.len(),
            targets.deep_view() == broadcast_list(ips.take(i as int)),
        decreases local_ips@.len() - i,
    {
        let ghost t1 = ips.take(i + 1);
        assert(t1.drop_last() =~= ips.take(i as int));
        assert(t1.last() == local_ips@[i as int]@);
        match subnet_broadcast_exec(local_ips[i].as_str()) {
            Some(t) => {
                if !crate::text::vec_contains(&targets, &t) {
                    let ghost before = targets.deep_view();
                    targets.push(string_of(&t));
                    assert(targets.deep_view() =~= before.push(t@));
                }
            },
            None => {},
        }
        i = i + 1;
    }
    assert(ips.take(ips.len() as int) =~= ips);
    targets
}

/// An address of this machine worth announcing: not loopback, not 0.x.
pub open spec fn usable_ip(ip: Seq<char>) -> bool {
    !starts_with(ip, "127."@) && !starts_with(ip, "0."@)
}

pub fn is_usable_local_ip(ip: &str) -> (r: bool)
    ensures
        r == usable_ip(ip@),
{
    let v = chars_of(ip);
    !starts_with_str(&v, "127.") && !starts_with_str(&v, "0.")
}

/// The address the sync server is announced under: the first local
/// address with the server's port.
pub fn resolve_lan_addr(local_ips: &Vec<String>, port: u16) -> (r: Option<String>)
    ensures
        local_ips@.len() == 0 ==> r is None,
        local_ips@.len() > 0 ==> (r matches Some(a) && a@ == local_ips@[0]@ + ":"@ + decimal(
            port as nat,
        )),
{
    if local_ips.len() == 0 {
        return None;
    }
    let mut out = chars_of(local_ips[0].as_str());
    extend_str(&mut out, ":");
    extend_chars(&mut out, &decimal_chars(port as u64));
    Some(string_of(&out))
}

/// How this device names itself, from the user or computer name the
/// environment gives.
pub fn default_device_name(user_or_host: Option<&str>) -> (r: String)
    ensures
        r@ == match user_or_host {
            Some(n) => "ShuaForge · "@ + n@,
            None => "ShuaForge 设备"@,
        },
{
    match user_or_host {
        Some(n) => {
            let mut out = chars_of("ShuaForge · ");
            extend_str(&mut out, n);
            string_of(&out)
        },
        None => lit_string("ShuaForge 设备"),
    }
}

/// The request asking a device at `addr` for its package.
pub fn sync_request(addr: &str) -> (r: String)
    ensures
        r@ == "GET "@ + EXPORT_PATH@ + " HTTP/1.1\r\nHost: "@ + addr@ + "\r\nConnection: close\r\n\r\n"@,
{
    let mut out = chars_of("GET ");
    extend_str(&mut out, EXPORT_PATH);
    extend_str(&mut out, " HTTP/1.1\r\nHost: ");
    extend_str(&mut out, addr);
    extend_str(&mut out, "\r\nConnection: close\r\n\r\n");
    string_of(&out)
}

/// A reply's status line is accepted when it holds `200`; otherwise the
/// error quotes it.
pub fn check_sync_status(status_line: &str) -> (r: Result<(), String>)
    ensures
        contains_seq(status_line@, "200"@) ==> r is Ok,
        !contains_seq(status_line@, "200"@) ==> (r matches Err(m) && m@ == "同步设备返回异常状态："@
            + trim(status_line@)),
{
    let v = chars_of(status_line);
    if contains_str(&v, "200") {
        Ok(())
    } else {
        let mut out = chars_of("同步设备返回异常状态：");
        extend_chars(&mut out, &trim_chars(&v));
        Err(string_of(&out))
    }
}

/// The head of a sync server reply with a body of `length` bytes.
pub fn sync_response_head(status: &str, content_type: &str, length: usize) -> (r: String)
    ensures
        r@ == "HTTP/1.1 "@ + status@ + "\r\nContent-Type: "@ + content_type@ + "\r\nContent-Length: "@
            + decimal(length as nat) + "\r\nAccess-Control-Allow-Origin: *\r\nConnection: close\r\n\r\n"@,
{
    let mut out = chars_of("HTTP/1.1 ");
    extend_str(&mut out, status);
    extend_str(&mut out, "\r\nContent-Type: ");
    extend_str(&mut out, content_type);
    extend_str(&mut out, "\r\nContent-Length: ");
    extend_chars(&mut out, &decimal_chars(length as u64));
    extend_str(&mut out, "\r\nAccess-Control-Allow-Origin: *\r\nConnection: close\r\n\r\n");
    string_of(&out)
}

/// A request to the sync server asks for the package.
pub fn is_export_request(method: &str, path: &str) -> (r: bool)
    ensures
        r == (method@ == "GET"@ && path@ == EXPORT_PATH@),
{
    str_eq(method, "GET") && str_eq(path, EXPORT_PATH)
}

/// A new device id from a seed: the first 16 bytes of its SHA-256, as hex.
pub open spec fn device_id_of(seed: Seq<char>) -> Seq<char> {
    crate::codec::hex_lower(crate::codec::sha256_digest(vstd::utf8::encode_utf8(seed)).take(16))
}

/// This device's id: the stored one unless it is missing or blank; else a
/// new one made from the device name and the time, which must then be
/// stored (the flag says so).
pub fn ensure_device_id(stored: Option<&str>, device_name: &str, now_secs: u64) -> (r: (String, bool))
    ensures
        match stored {
            Some(s) => !blank(s@) ==> r.0@ == s@ && !r.1,
            None => true,
        },
        (stored is None || blank(stored->0@)) ==> r.1 && r.0@ == device_id_of(
            device_name@ + ":"@ + decimal(now_secs as nat),
        ),
{
    match stored {
        Some(s) => {
            if !is_blank_str(s) {
                return (lit_string(s), false);
            }
        },
        None => {},
    }
    let mut seed = chars_of(device_name);
    extend_str(&mut seed, ":");
    extend_chars(&mut seed, &decimal_chars(now_secs));
    let seed_text = string_of(&seed);
    let digest = crate::codec::sha256(seed_text.as_str().as_bytes());
    let head = crate::text::slice_u8(&digest, 0, 16);
    (crate::codec::hex_encode(&head), true)
}

} // verus!
