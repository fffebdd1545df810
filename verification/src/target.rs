//! The serve side's forwarding targets.
//!
//! A target is an optional host and a port; its key is the canonical string
//! `host:port`, or just `port` when the host is absent (loopback on the
//! remote).  The serve role offers the keys to the peer and dials the target
//! a `connect` names; a host-less target is dialed on the IPv6 loopback.

use vstd::prelude::*;
use crate::strutil::{dec_chars, u64_to_dec};

verus! {

/// One allowed forwarding target.
#[derive(Debug)]
pub struct Target {
    pub host: Option<String>,
    pub port: u16,
}

/// The mathematical image of an optional host.
pub open spec fn host_view(h: Option<String>) -> Option<Seq<char>> {
    match h {
        Some(s) => Some(s@),
        None => None,
    }
}

/// The canonical key of a target: `host:port`, or `port` alone.
pub open spec fn target_key_chars(host: Option<Seq<char>>, port: u16) -> Seq<char> {
    match host {
        Some(h) => h + ":"@ + dec_chars(port as nat),
        None => dec_chars(port as nat),
    }
}

/// The address the serve side dials for a target: the key itself when a
/// host is named, the IPv6 loopback otherwise.
pub open spec fn dial_addr_chars(host: Option<Seq<char>>, port: u16) -> Seq<char> {
    match host {
        Some(h) => h + ":"@ + dec_chars(port as nat),
        None => "[::1]:"@ + dec_chars(port as nat),
    }
}

/// Builds the canonical key of a target.
pub fn target_key(host: &Option<String>, port: u16) -> (r: String)
    ensures
        r@ == target_key_chars(host_view(*host), port),
{
    match host {
        Some(h) => {
            let mut k = h.clone();
            k.append(":");
            let d = u64_to_dec(port as u64);
            k.append(d.as_str());
            proof {
                assert(k@ =~= target_key_chars(host_view(*host), port));
            }
            k
        },
        None => u64_to_dec(port as u64),
    }
}

/// Builds the address the serve side dials for a target.
pub fn dial_addr(host: &Option<String>, port: u16) -> (r: String)
    ensures
        r@ == dial_addr_chars(host_view(*host), port),
{
    match host {
        Some(_) => target_key(host, port),
        None => {
            let mut k = String::from_str("[::1]:");
            let d = u64_to_dec(port as u64);
            k.append(d.as_str());
            proof {
                assert(k@ =~= dial_addr_chars(host_view(*host), port));
            }
            k
        },
    }
}

/// Ports on which host-aware HTTP commonly listens; forwarding one is
/// likely to misbehave and deserves a warning.
pub fn is_http_port(port: u16) -> (r: bool)
    ensures
        r == (port == 80 || port == 443 || port == 8000 || port == 8080),
{
    port == 80 || port == 443 || port == 8000 || port == 8080
}

/// One entry of the target map: the key and the target it names.
#[derive(Debug)]
pub struct TargetEntry {
    pub key: String,
    pub host: Option<String>,
    pub port: u16,
}

/// The mathematical image of an entry.
pub open spec fn entry_view(e: TargetEntry) -> (Seq<char>, Option<Seq<char>>, u16) {
    (e.key@, host_view(e.host), e.port)
}

/// The serve side's target map: keys in insertion order, no key twice, each
/// key canonical for its target.
#[derive(Debug)]
pub struct TargetMap {
    entries: Vec<TargetEntry>,
}

/// The entries a sequence of targets produces: each target in order, keyed
/// canonically, later duplicates of a key dropped.
pub open spec fn built_entries(ts: Seq<(Option<Seq<char>>, u16)>) -> Seq<
    (Seq<char>, Option<Seq<char>>, u16),
>
    decreases ts.len(),
{
    if ts.len() == 0 {
        Seq::empty()
    } else {
        let prev = built_entries(ts.drop_last());
        let t = ts.last();
        let k = target_key_chars(t.0, t.1);
        if has_key(prev, k) {
            prev
        } else {
            prev.push((k, t.0, t.1))
        }
    }
}

/// Whether some entry has the given key.
pub open spec fn has_key(es: Seq<(Seq<char>, Option<Seq<char>>, u16)>, k: Seq<char>) -> bool {
    exists|i: int| 0 <= i < es.len() && #[trigger] es[i].0 == k
}

/// The target an entry sequence maps a key to.
pub open spec fn key_lookup(es: Seq<(Seq<char>, Option<Seq<char>>, u16)>, k: Seq<char>) -> Option<
    (Option<Seq<char>>, u16),
> {
    if has_key(es, k) {
        let i = choose|i: int| 0 <= i < es.len() && #[trigger] es[i].0 == k;
        Some((es[i].1, es[i].2))
    } else {
        None
    }
}

impl TargetMap {
    /// The entries, in insertion order.
    pub closed spec fn view(&self) -> Seq<(Seq<char>, Option<Seq<char>>, u16)> {
        self.entries@.map_values(|e: TargetEntry| entry_view(e))
    }

    /// No key appears twice.
    pub open spec fn wf(&self) -> bool {
        forall|i: int, j: int| 0 <= i < j < self@.len() ==> self@[i].0 != self@[j].0
    }

    /// The keys, in insertion order: what the serve side offers.
    pub open spec fn keys(&self) -> Seq<Seq<char>> {
        self@.map_values(|e: (Seq<char>, Option<Seq<char>>, u16)| e.0)
    }

    /// Whether some entry has the given key.
    fn contains_key(&self, k: &String) -> (r: bool)
        ensures
            r == has_key(self@, k@),
    {
        let mut i: usize = 0;
        while i < self.entries.len()
            invariant
                0 <= i <= self.entries@.len(),
                forall|x: int| 0 <= x < i ==> #[trigger] self@[x].0 != k@,
            decreases self.entries@.len() - i,
        {
            if self.entries[i].key.eq(k) {
                proof {
                    assert(self@[i as int].0 == k@);
                }
                return true;
            }
            proof {
                assert(self@[i as int].0 == self.entries@[i as int].key@);
            }
            i += 1;
        }
        false
    }

    /// Builds the map from the allowed targets, keyed canonically, keeping
    /// the first target for a key.
    #[verifier::loop_isolation(false)]
    pub fn from_targets(targets: Vec<Target>) -> (r: TargetMap)
        ensures
            r.wf(),
            r@ == built_entries(
                targets@.map_values(|t: Target| (host_view(t.host), t.port)),
            ),
    {
        let ghost tvs = targets@.map_values(|t: Target| (host_view(t.host), t.port));
        let mut m = TargetMap { entries: Vec::new() };
        let mut i: usize = 0;
        proof {
            assert(tvs.subrange(0, 0) =~= Seq::<(Option<Seq<char>>, u16)>::empty());
            assert(m@ =~= built_entries(tvs.subrange(0, 0)));
        }
        while i < targets.len()
            invariant
                0 <= i <= targets@.len(),
                m.wf(),
                m@ == built_entries(tvs.subrange(0, i as int)),
            decreases targets@.len() - i,
        {
            let t = &targets[i];
            let k = target_key(&t.host, t.port);
            proof {
                assert(tvs.subrange(0, i + 1).drop_last() =~= tvs.subrange(0, i as int));
                assert(tvs.subrange(0, i + 1).last() == tvs[i as int]);
                assert(tvs[i as int] == (host_view(targets@[i as int].host), targets@[i as int].port));
            }
            if !m.contains_key(&k) {
                let host2 = match &t.host {
                    Some(h) => Some(h.clone()),
                    None => None,
                };
                let port2 = t.port;
                m.entries.push(TargetEntry { key: k, host: host2, port: port2 });
                proof {
                    assert(m@ =~= built_entries(tvs.subrange(0, i as int)).push(
                        (
                            target_key_chars(tvs[i as int].0, tvs[i as int].1),
                            tvs[i as int].0,
                            tvs[i as int].1,
                        ),
                    ));
                    assert(m@ =~= built_entries(tvs.subrange(0, i + 1)));
                }
            } else {
                proof {
                    assert(m@ =~= built_entries(tvs.subrange(0, i + 1)));
                }
            }
            i += 1;
        }
        proof {
            assert(tvs.subrange(0, tvs.len() as int) =~= tvs);
        }
        m
    }

    /// Looks a key up, returning the host and port it names.
    pub fn lookup(&self, k: &String) -> (r: Option<(Option<String>, u16)>)
        requires
            self.wf(),
        ensures
            match r {
                Some(hp) => key_lookup(self@, k@) == Some((host_view(hp.0), hp.1)),
                None => key_lookup(self@, k@) is None,
            },
    {
        let mut i: usize = 0;
        while i < self.entries.len()
            invariant
                self.wf(),
                0 <= i <= self.entries@.len(),
                forall|x: int| 0 <= x < i ==> #[trigger] self@[x].0 != k@,
            decreases self.entries@.len() - i,
        {
            if self.entries[i].key.eq(k) {
                let host2 = match &self.entries[i].host {
                    Some(h) => Some(h.clone()),
                    None => None,
                };
                let port2 = self.entries[i].port;
                proof {
                    assert(self@[i as int].0 == k@);
                    let w = choose|x: int| 0 <= x < self@.len() && #[trigger] self@[x].0 == k@;
                    assert(w == i as int);
                    assert(self@[i as int].1 == host_view(self.entries@[i as int].host));
                }
                return Some((host2, port2));
            }
            proof {
                assert(self@[i as int].0 == self.entries@[i as int].key@);
            }
            i += 1;
        }
        proof {
            assert(!has_key(self@, k@));
        }
        None
    }

    /// The keys as strings, in insertion order: the offer the serve side
    /// sends.
    pub fn key_strings(&self) -> (r: Vec<String>)
        ensures
            r@.map_values(|s: String| s@) == self.keys(),
    {
        let mut out: Vec<String> = Vec::new();
        let mut i: usize = 0;
        proof {
            assert(out@.map_values(|s: String| s@) =~= self.keys().subrange(0, 0));
        }
        while i < self.entries.len()
            invariant
                0 <= i <= self.entries@.len(),
                out@.map_values(|s: String| s@) == self.keys().subrange(0, i as int),
            decreases self.entries@.len() - i,
        {
            let ghost prev = out@;
            out.push(self.entries[i].key.clone());
            proof {
                let key_i = self.entries@[i as int].key;
                assert(out@ == prev.push(key_i));
                prev.lemma_push_map_commute(|s: String| s@, key_i);
                assert(out@.map_values(|s: String| s@) == prev.map_values(|s: String| s@).push(
                    key_i@,
                ));
                assert(self.keys()[i as int] == self@[i as int].0);
                assert(self@[i as int] == entry_view(self.entries@[i as int]));
                assert(out@.map_values(|s: String| s@) =~= self.keys().subrange(0, i + 1));
            }
            i += 1;
        }
        proof {
            assert(self.keys().subrange(0, self.keys().len() as int) =~= self.keys());
        }
        out
    }

    /// How many targets are mapped.
    pub fn len(&self) -> (r: usize)
        ensures
            r == self@.len(),
    {
        self.entries.len()
    }
}

/// The local port each offered address is bound on: the preferred ports in
/// order, any remainder ephemeral (port 0).
pub fn plan_bind_ports(address_count: usize, custom_ports: &Vec<u16>) -> (r: Vec<u16>)
    ensures
        r@.len() == address_count,
        forall|i: int|
            0 <= i < address_count ==> r@[i] == (if i < custom_ports@.len() {
                custom_ports@[i]
            } else {
                0u16
            }),
{
    let mut out: Vec<u16> = Vec::new();
    let mut i: usize = 0;
    while i < address_count
        invariant
            0 <= i <= address_count,
            out@.len() == i,
            forall|x: int|
                0 <= x < i ==> out@[x] == (if x < custom_ports@.len() {
                    custom_ports@[x]
                } else {
                    0u16
                }),
        decreases address_count - i,
    {
        if i < custom_ports.len() {
            out.push(custom_ports[i]);
        } else {
            out.push(0);
        }
        i += 1;
    }
    out
}

} // verus!
