//! The reconciliation engine.  It owns the set of devices known from the
//! previous poll and, for each freshly enumerated snapshot, computes which
//! devices were removed and which were added, updates the set, and yields
//! one notification event per unique resolved label per transition.
//!
//! Removals are reported first, highest known index first; additions follow
//! in snapshot order.  A device whose resolved label or `VVVV:PPPP` hex
//! form stands on the ignore list is never added; a label is notified at
//! most once per poll, and the label of internal devices never.

use vstd::prelude::*;

use crate::kbdevice::{clone_infos, hex_form, hex_id, spec_name, Device, DeviceInfos};
use crate::kbutils::{get_alias, internal_key, resolve_spec, Aliases, KBConfig, KeyValue};
use crate::text::{contains_str, str_eq, str_to_upper, strs_view, upper_seq};

verus! {

/// Whether some entry of `s` carries the identity `id`.
pub open spec fn has_id(s: Seq<DeviceInfos>, id: Device) -> bool {
    exists|i: int| 0 <= i < s.len() && s[i].device == id
}

/// No two entries share an identity: the invariant of the known set.
pub open spec fn distinct_ids(s: Seq<DeviceInfos>) -> bool {
    forall|i: int, j: int| 0 <= i < j < s.len() ==> s[i].device != s[j].device
}

/// The label a device is reported under: its display name resolved through
/// the alias table.
pub open spec fn label_of(d: DeviceInfos, table: Seq<KeyValue>) -> Seq<char> {
    resolve_spec(spec_name(d), table)
}

/// Whether a device is suppressed: its upper-cased label or its `VVVV:PPPP`
/// hex form stands on the (upper-cased) ignore list.
pub open spec fn is_ignored(d: DeviceInfos, ignore: Seq<Seq<char>>, table: Seq<KeyValue>) -> bool {
    ignore.contains(upper_seq(label_of(d, table))) || ignore.contains(hex_id(d.device))
}

/// The known entries whose identity is still enumerated, in their old
/// order.
pub open spec fn keep_known(known: Seq<DeviceInfos>, snap: Seq<DeviceInfos>) -> Seq<DeviceInfos>
    decreases known.len(),
{
    if known.len() == 0 {
        Seq::empty()
    } else {
        let front = keep_known(known.drop_last(), snap);
        if has_id(snap, known.last().device) {
            front + seq![known.last()]
        } else {
            front
        }
    }
}

/// The known entries whose identity is no longer enumerated, highest index
/// first: the order removals are applied and reported in.
pub open spec fn removed_desc(known: Seq<DeviceInfos>, snap: Seq<DeviceInfos>) -> Seq<DeviceInfos>
    decreases known.len(),
{
    if known.len() == 0 {
        Seq::empty()
    } else {
        let front = removed_desc(known.drop_last(), snap);
        if !has_id(snap, known.last().device) {
            seq![known.last()] + front
        } else {
            front
        }
    }
}

/// The snapshot entries taken up this poll, in snapshot order: those whose
/// identity is neither known nor added earlier in the same poll, and that
/// are not ignored.
pub open spec fn added_devices(
    snap: Seq<DeviceInfos>,
    known: Seq<DeviceInfos>,
    ignore: Seq<Seq<char>>,
    table: Seq<KeyValue>,
) -> Seq<DeviceInfos>
    decreases snap.len(),
{
    if snap.len() == 0 {
        Seq::empty()
    } else {
        let d = snap[0];
        if !has_id(known, d.device) && !is_ignored(d, ignore, table) {
            seq![d] + added_devices(snap.drop_first(), known.push(d), ignore, table)
        } else {
            added_devices(snap.drop_first(), known, ignore, table)
        }
    }
}

/// The known set after one poll: the kept entries followed by the added
/// ones.
pub open spec fn new_known(
    known: Seq<DeviceInfos>,
    snap: Seq<DeviceInfos>,
    ignore: Seq<Seq<char>>,
    table: Seq<KeyValue>,
) -> Seq<DeviceInfos> {
    keep_known(known, snap) + added_devices(snap, known, ignore, table)
}

#[derive(Clone, Copy, PartialEq, Eq, Structural, Debug)]
pub enum NotificationKind {
    Removed,
    Added,
}

/// One event handed to the dispatcher: the transition and the resolved
/// label of the device.
pub struct Notification {
    pub kind: NotificationKind,
    pub label: String,
}

pub open spec fn note_view(n: Notification) -> (NotificationKind, Seq<char>) {
    (n.kind, n.label@)
}

pub open spec fn notes_view(ns: Seq<Notification>) -> Seq<(NotificationKind, Seq<char>)> {
    ns.map_values(|n: Notification| note_view(n))
}

pub open spec fn tag_all(k: NotificationKind, ds: Seq<DeviceInfos>) -> Seq<
    (NotificationKind, DeviceInfos),
> {
    ds.map_values(|d: DeviceInfos| (k, d))
}

/// The events a list of transitions yields, given the labels already
/// notified this poll: internal devices are silent, and a label repeats at
/// most once per poll.
pub open spec fn spec_notes(
    ds: Seq<(NotificationKind, DeviceInfos)>,
    table: Seq<KeyValue>,
    seen: Seq<Seq<char>>,
) -> Seq<(NotificationKind, Seq<char>)>
    decreases ds.len(),
{
    if ds.len() == 0 {
        Seq::empty()
    } else {
        let l = label_of(ds[0].1, table);
        if l != internal_key() && !seen.contains(l) {
            seq![(ds[0].0, l)] + spec_notes(ds.drop_first(), table, seen.push(l))
        } else {
            spec_notes(ds.drop_first(), table, seen)
        }
    }
}

/// The labels notified after a list of transitions.
pub open spec fn spec_seen(
    ds: Seq<(NotificationKind, DeviceInfos)>,
    table: Seq<KeyValue>,
    seen: Seq<Seq<char>>,
) -> Seq<Seq<char>>
    decreases ds.len(),
{
    if ds.len() == 0 {
        seen
    } else {
        let l = label_of(ds[0].1, table);
        if l != internal_key() && !seen.contains(l) {
            spec_seen(ds.drop_first(), table, seen.push(l))
        } else {
            spec_seen(ds.drop_first(), table, seen)
        }
    }
}

/// All events of one poll: removal events, highest known index first, then
/// addition events in snapshot order, deduplicated across the whole poll.
pub open spec fn reconcile_events(
    known: Seq<DeviceInfos>,
    snap: Seq<DeviceInfos>,
    ignore: Seq<Seq<char>>,
    table: Seq<KeyValue>,
) -> Seq<(NotificationKind, Seq<char>)> {
    spec_notes(
        tag_all(NotificationKind::Removed, removed_desc(known, snap)) + tag_all(
            NotificationKind::Added,
            added_devices(snap, known, ignore, table),
        ),
        table,
        Seq::empty(),
    )
}

/// Identity membership distributes over concatenation.
pub proof fn lemma_has_id_concat(a: Seq<DeviceInfos>, b: Seq<DeviceInfos>, id: Device)
    ensures
        has_id(a + b, id) == (has_id(a, id) || has_id(b, id)),
{
    if has_id(a, id) {
        let i = choose|i: int| 0 <= i < a.len() && a[i].device == id;
        assert((a + b)[i].device == id);
    }
    if has_id(b, id) {
        let i = choose|i: int| 0 <= i < b.len() && b[i].device == id;
        assert((a + b)[a.len() + i].device == id);
    }
    if has_id(a + b, id) {
        let i = choose|i: int| 0 <= i < (a + b).len() && (a + b)[i].device == id;
        if i < a.len() {
            assert(a[i].device == id);
        } else {
            assert(b[i - a.len()].device == id);
        }
    }
}

/// Peeling the front element off the removal list: the entry at the lowest
/// index comes last.
proof fn lemma_removed_prepend(x: DeviceInfos, s: Seq<DeviceInfos>, snap: Seq<DeviceInfos>)
    ensures
        removed_desc(seq![x] + s, snap) == removed_desc(s, snap) + (if !has_id(snap, x.device) {
            seq![x]
        } else {
            Seq::<DeviceInfos>::empty()
        }),
    decreases s.len(),
{
    let t = seq![x] + s;
    let sel: Seq<DeviceInfos> = if !has_id(snap, x.device) {
        seq![x]
    } else {
        Seq::empty()
    };
    if s.len() == 0 {
        assert(t =~= seq![x]);
        assert(t.drop_last() =~= Seq::<DeviceInfos>::empty());
        assert(t.last() == x);
        assert(removed_desc(Seq::<DeviceInfos>::empty(), snap) == Seq::<DeviceInfos>::empty());
        assert(removed_desc(t, snap) =~= sel);
        assert(removed_desc(s, snap) + sel =~= sel);
    } else {
        assert(t.last() == s.last());
        assert(t.drop_last() =~= seq![x] + s.drop_last());
        lemma_removed_prepend(x, s.drop_last(), snap);
        if !has_id(snap, s.last().device) {
            assert(removed_desc(t, snap) == seq![s.last()] + (removed_desc(s.drop_last(), snap)
                + sel));
            assert(seq![s.last()] + (removed_desc(s.drop_last(), snap) + sel) =~= (seq![s.last()]
                + removed_desc(s.drop_last(), snap)) + sel);
        } else {
            assert(removed_desc(t, snap) == removed_desc(s.drop_last(), snap) + sel);
        }
    }
}

/// Splitting a transition list: the second part runs with the labels the
/// first part notified.
proof fn lemma_notes_append(
    a: Seq<(NotificationKind, DeviceInfos)>,
    b: Seq<(NotificationKind, DeviceInfos)>,
    table: Seq<KeyValue>,
    seen: Seq<Seq<char>>,
)
    ensures
        spec_notes(a + b, table, seen) == spec_notes(a, table, seen) + spec_notes(
            b,
            table,
            spec_seen(a, table, seen),
        ),
        spec_seen(a + b, table, seen) == spec_seen(b, table, spec_seen(a, table, seen)),
    decreases a.len(),
{
    if a.len() == 0 {
        assert(a + b =~= b);
        assert(spec_notes(a, table, seen) + spec_notes(b, table, seen) =~= spec_notes(
            b,
            table,
            seen,
        ));
    } else {
        let l = label_of(a[0].1, table);
        assert((a + b)[0] == a[0]);
        assert((a + b).drop_first() =~= a.drop_first() + b);
        if l != internal_key() && !seen.contains(l) {
            lemma_notes_append(a.drop_first(), b, table, seen.push(l));
            let x = seq![(a[0].0, l)];
            let y = spec_notes(a.drop_first(), table, seen.push(l));
            let z = spec_notes(b, table, spec_seen(a.drop_first(), table, seen.push(l)));
            assert(x + (y + z) =~= (x + y) + z);
        } else {
            lemma_notes_append(a.drop_first(), b, table, seen);
        }
    }
}

/// What holds of the kept entries: each is still enumerated, each comes
/// from the known set, and distinct identities stay distinct.
pub proof fn lemma_keep_props(k: Seq<DeviceInfos>, s: Seq<DeviceInfos>)
    ensures
        forall|i: int|
            0 <= i < keep_known(k, s).len() ==> has_id(
                s,
                #[trigger] keep_known(k, s)[i].device,
            ) && has_id(k, keep_known(k, s)[i].device),
        distinct_ids(k) ==> distinct_ids(keep_known(k, s)),
    decreases k.len(),
{
    if k.len() == 0 {
    } else {
        lemma_keep_props(k.drop_last(), s);
        let kp = keep_known(k, s);
        let fr = keep_known(k.drop_last(), s);
        assert forall|i: int| 0 <= i < fr.len() implies has_id(k, fr[i].device) by {
            let w = choose|w: int|
                0 <= w < k.drop_last().len() && k.drop_last()[w].device == fr[i].device;
            assert(k[w].device == fr[i].device);
        }
        if has_id(s, k.last().device) {
            assert(kp == fr + seq![k.last()]);
            assert forall|i: int|
                0 <= i < kp.len() implies has_id(s, #[trigger] kp[i].device) && has_id(
                k,
                kp[i].device,
            ) by {
                if i < fr.len() {
                    assert(kp[i] == fr[i]);
                } else {
                    assert(kp[i] == k.last());
                    assert(k[k.len() - 1].device == k.last().device);
                }
            }
            if distinct_ids(k) {
                assert forall|x: int, y: int|
                    0 <= x < y < kp.len() implies kp[x].device != kp[y].device by {
                    if y < fr.len() {
                        assert(fr[x].device != fr[y].device);
                    } else {
                        assert(kp[y] == k.last());
                        assert(kp[x] == fr[x]);
                        let w = choose|w: int|
                            0 <= w < k.drop_last().len() && k.drop_last()[w].device
                                == fr[x].device;
                        assert(k[w].device == fr[x].device);
                        assert(k[w].device != k[k.len() - 1].device);
                    }
                }
            }
        } else {
            assert(kp == fr);
        }
    }
}

/// What holds of the added entries: each comes from the snapshot, none was
/// already known, none is ignored, and no two share an identity.
pub proof fn lemma_added_props(
    snap: Seq<DeviceInfos>,
    k: Seq<DeviceInfos>,
    ignore: Seq<Seq<char>>,
    table: Seq<KeyValue>,
)
    ensures
        forall|i: int|
            0 <= i < added_devices(snap, k, ignore, table).len() ==> !has_id(
                k,
                #[trigger] added_devices(snap, k, ignore, table)[i].device,
            ),
        forall|i: int|
            0 <= i < added_devices(snap, k, ignore, table).len() ==> has_id(
                snap,
                #[trigger] added_devices(snap, k, ignore, table)[i].device,
            ),
        forall|i: int|
            0 <= i < added_devices(snap, k, ignore, table).len() ==> !is_ignored(
                #[trigger] added_devices(snap, k, ignore, table)[i],
                ignore,
                table,
            ),
        distinct_ids(added_devices(snap, k, ignore, table)),
    decreases snap.len(),
{
    if snap.len() == 0 {
    } else {
        let d = snap[0];
        let a = added_devices(snap, k, ignore, table);
        let rest = snap.drop_first();
        if !has_id(k, d.device) && !is_ignored(d, ignore, table) {
            lemma_added_props(rest, k.push(d), ignore, table);
            let a2 = added_devices(rest, k.push(d), ignore, table);
            assert(a == seq![d] + a2);
            assert forall|i: int| 0 <= i < a.len() implies !has_id(
                k,
                #[trigger] a[i].device,
            ) by {
                if i > 0 {
                    assert(a[i] == a2[i - 1]);
                    assert(!has_id(k.push(d), a2[i - 1].device));
                    if has_id(k, a2[i - 1].device) {
                        let w = choose|w: int|
                            0 <= w < k.len() && k[w].device == a2[i - 1].device;
                        assert(k.push(d)[w].device == a2[i - 1].device);
                    }
                }
            }
            assert forall|i: int| 0 <= i < a.len() implies has_id(
                snap,
                #[trigger] a[i].device,
            ) by {
                if i == 0 {
                    assert(snap[0].device == a[0].device);
                } else {
                    assert(a[i] == a2[i - 1]);
                    let w = choose|w: int|
                        0 <= w < rest.len() && rest[w].device == a2[i - 1].device;
                    assert(snap[w + 1].device == a2[i - 1].device);
                }
            }
            assert forall|i: int| 0 <= i < a.len() implies !is_ignored(
                #[trigger] a[i],
                ignore,
                table,
            ) by {
                if i > 0 {
                    assert(a[i] == a2[i - 1]);
                }
            }
            assert forall|x: int, y: int|
                0 <= x < y < a.len() implies a[x].device != a[y].device by {
                if x == 0 {
                    assert(a[y] == a2[y - 1]);
                    assert(!has_id(k.push(d), a2[y - 1].device));
                    assert(k.push(d)[k.len() as int].device == d.device);
                } else {
                    assert(a[x] == a2[x - 1]);
                    assert(a[y] == a2[y - 1]);
                }
            }
        } else {
            lemma_added_props(rest, k, ignore, table);
            let a2 = added_devices(rest, k, ignore, table);
            assert(a == a2);
            assert forall|i: int| 0 <= i < a.len() implies has_id(
                snap,
                #[trigger] a[i].device,
            ) by {
                let w = choose|w: int| 0 <= w < rest.len() && rest[w].device == a2[i].device;
                assert(snap[w + 1].device == a2[i].device);
            }
        }
    }
}

/// Whether some entry of `list` carries the identity `id`.
pub fn contains_id(list: &Vec<DeviceInfos>, id: Device) -> (r: bool)
    ensures
        r == has_id(list@, id),
{
    let mut i: usize = 0;
    while i < list.len()
        invariant
            i <= list@.len(),
            forall|j: int| 0 <= j < i ==> list@[j].device != id,
        decreases list@.len() - i,
    {
        let e: &DeviceInfos = &list[i];
        if e.device == id {
            return true;
        }
        i = i + 1;
    }
    false
}

/// Whether a device is suppressed by the ignore list.
fn device_ignored(d: &DeviceInfos, config: &KBConfig, aliases: &Aliases) -> (r: bool)
    ensures
        r == is_ignored(*d, strs_view(config.ignored_devices@), aliases@),
{
    let name = d.get_name();
    let label = get_alias(name.as_str(), aliases);
    let ulabel = str_to_upper(label.as_str());
    if contains_str(&config.ignored_devices, ulabel.as_str()) {
        return true;
    }
    let hexs = hex_form(&d.device);
    contains_str(&config.ignored_devices, hexs.as_str())
}

/// Appends the event for one transition, unless its label is internal or
/// was already notified this poll.
fn push_note(
    notes: &mut Vec<Notification>,
    seen: &mut Vec<String>,
    kind: NotificationKind,
    d: &DeviceInfos,
    aliases: &Aliases,
)
    ensures
        notes_view(final(notes)@) == notes_view(old(notes)@) + spec_notes(
            seq![(kind, *d)],
            aliases@,
            strs_view(old(seen)@),
        ),
        strs_view(final(seen)@) == spec_seen(seq![(kind, *d)], aliases@, strs_view(old(seen)@)),
{
    let name = d.get_name();
    let label = get_alias(name.as_str(), aliases);
    let internal = str_eq(label.as_str(), "INTERNAL");
    let dup = contains_str(seen, label.as_str());
    proof {
        let p = seq![(kind, *d)];
        assert(p.drop_first() =~= Seq::<(NotificationKind, DeviceInfos)>::empty());
        assert(label@ == label_of(*d, aliases@));
    }
    if !internal && !dup {
        seen.push(label.clone());
        notes.push(Notification { kind, label });
        proof {
            let p = seq![(kind, *d)];
            let l = label_of(*d, aliases@);
            let s0 = strs_view(old(seen)@);
            assert(p[0] == (kind, *d));
            assert(spec_notes(Seq::<(NotificationKind, DeviceInfos)>::empty(), aliases@, s0.push(
                l,
            )) == Seq::<(NotificationKind, Seq<char>)>::empty());
            assert(spec_seen(Seq::<(NotificationKind, DeviceInfos)>::empty(), aliases@, s0.push(
                l,
            )) == s0.push(l));
            assert(spec_notes(p, aliases@, s0) =~= seq![(kind, l)]);
            assert(spec_seen(p, aliases@, s0) =~= s0.push(l));
            assert(notes_view(notes@) =~= notes_view(old(notes)@) + seq![(kind, l)]);
            assert(strs_view(seen@) =~= s0.push(l));
        }
    } else {
        proof {
            let p = seq![(kind, *d)];
            let l = label_of(*d, aliases@);
            let s0 = strs_view(old(seen)@);
            assert(p[0] == (kind, *d));
            assert(spec_notes(Seq::<(NotificationKind, DeviceInfos)>::empty(), aliases@, s0)
                == Seq::<(NotificationKind, Seq<char>)>::empty());
            assert(spec_seen(Seq::<(NotificationKind, DeviceInfos)>::empty(), aliases@, s0) == s0);
            assert(spec_notes(p, aliases@, s0) =~= Seq::<(NotificationKind, Seq<char>)>::empty());
            assert(spec_seen(p, aliases@, s0) == s0);
            assert(notes_view(notes@) =~= notes_view(old(notes)@) + spec_notes(
                p,
                aliases@,
                s0,
            ));
        }
    }
}

/// The devices known from the previous poll, owned by the engine for the
/// process lifetime.
pub struct KnownDevices {
    pub devices: Vec<DeviceInfos>,
}

impl KnownDevices {
    /// No two known entries share an identity.
    pub open spec fn wf(&self) -> bool {
        distinct_ids(self.devices@)
    }

    pub fn new() -> (r: KnownDevices)
        ensures
            r.devices@.len() == 0,
            r.wf(),
    {
        KnownDevices { devices: Vec::new() }
    }

    /// One poll: diffs the snapshot against the known set, applies
    /// removals (highest index first) and then additions, and returns the
    /// notification events in that order.  The snapshot holds every
    /// device the provider could read this poll; an enumeration failure is
    /// handed in as an empty snapshot.
    pub fn reconcile(
        &mut self,
        snapshot: &Vec<DeviceInfos>,
        config: &KBConfig,
        aliases: &Aliases,
    ) -> (notes: Vec<Notification>)
        ensures
            final(self).devices@ == new_known(
                old(self).devices@,
                snapshot@,
                strs_view(config.ignored_devices@),
                aliases@,
            ),
            notes_view(notes@) == reconcile_events(
                old(self).devices@,
                snapshot@,
                strs_view(config.ignored_devices@),
                aliases@,
            ),
            old(self).wf() ==> final(self).wf(),
    {
        let ghost known0 = self.devices@;
        let ghost ig = strs_view(config.ignored_devices@);
        let ghost tb = aliases@;

        // Additions, decided against the old known set and the devices
        // added earlier in this same poll.
        let mut added: Vec<DeviceInfos> = Vec::new();
        proof {
            assert(snapshot@.skip(0) =~= snapshot@);
            assert(known0 + added@ =~= known0);
        }
        let mut i: usize = 0;
        while i < snapshot.len()
            invariant
                i <= snapshot@.len(),
                self.devices@ == known0,
                ig == strs_view(config.ignored_devices@),
                tb == aliases@,
                added_devices(snapshot@, known0, ig, tb) == added@ + added_devices(
                    snapshot@.skip(i as int),
                    known0 + added@,
                    ig,
                    tb,
                ),
            decreases snapshot@.len() - i,
        {
            let d: &DeviceInfos = &snapshot[i];
            let in_known = contains_id(&self.devices, d.device);
            let in_added = contains_id(&added, d.device);
            let ign = device_ignored(d, config, aliases);
            proof {
                assert(snapshot@.skip(i as int)[0] == snapshot@[i as int]);
                assert(snapshot@.skip(i as int).drop_first() =~= snapshot@.skip(i as int + 1));
                lemma_has_id_concat(known0, added@, d.device);
            }
            if !in_known && !in_added && !ign {
                let ghost added0 = added@;
                added.push(clone_infos(d));
                proof {
                    assert((known0 + added0).push(*d) =~= known0 + added@);
                    assert(added0 + (seq![*d] + added_devices(
                        snapshot@.skip(i as int + 1),
                        known0 + added@,
                        ig,
                        tb,
                    )) =~= added@ + added_devices(
                        snapshot@.skip(i as int + 1),
                        known0 + added@,
                        ig,
                        tb,
                    ));
                }
            }
            i = i + 1;
        }
        proof {
            assert(snapshot@.skip(snapshot@.len() as int).len() == 0);
            assert(added@ + Seq::<DeviceInfos>::empty() =~= added@);
            assert(added@ == added_devices(snapshot@, known0, ig, tb));
        }

        // Removal events, highest known index first.
        let mut notes: Vec<Notification> = Vec::new();
        let mut seen: Vec<String> = Vec::new();
        proof {
            assert(known0.skip(known0.len() as int).len() == 0);
            assert(notes_view(notes@) =~= Seq::<(NotificationKind, Seq<char>)>::empty());
            assert(strs_view(seen@) =~= Seq::<Seq<char>>::empty());
        }
        let mut j: usize = self.devices.len();
        while j > 0
            invariant
                j <= known0.len(),
                self.devices@ == known0,
                ig == strs_view(config.ignored_devices@),
                tb == aliases@,
                notes_view(notes@) == spec_notes(
                    tag_all(
                        NotificationKind::Removed,
                        removed_desc(known0.skip(j as int), snapshot@),
                    ),
                    tb,
                    Seq::empty(),
                ),
                strs_view(seen@) == spec_seen(
                    tag_all(
                        NotificationKind::Removed,
                        removed_desc(known0.skip(j as int), snapshot@),
                    ),
                    tb,
                    Seq::empty(),
                ),
            decreases j,
        {
            j = j - 1;
            let d: &DeviceInfos = &self.devices[j];
            let ghost p0 = tag_all(
                NotificationKind::Removed,
                removed_desc(known0.skip(j as int + 1), snapshot@),
            );
            proof {
                assert(known0.skip(j as int) =~= seq![known0[j as int]] + known0.skip(j as int + 1));
                lemma_removed_prepend(known0[j as int], known0.skip(j as int + 1), snapshot@);
            }
            if !contains_id(snapshot, d.device) {
                push_note(&mut notes, &mut seen, NotificationKind::Removed, d, aliases);
                proof {
                    let x = seq![(NotificationKind::Removed, known0[j as int])];
                    assert(tag_all(
                        NotificationKind::Removed,
                        removed_desc(known0.skip(j as int), snapshot@),
                    ) =~= p0 + x);
                    lemma_notes_append(p0, x, tb, Seq::empty());
                }
            } else {
                proof {
                    assert(removed_desc(known0.skip(j as int), snapshot@) =~= removed_desc(
                        known0.skip(j as int + 1),
                        snapshot@,
                    ));
                }
            }
        }
        proof {
            assert(known0.skip(0) =~= known0);
        }

        // Addition events, in snapshot order, against the labels the
        // removals already notified.
        let ghost rpairs = tag_all(NotificationKind::Removed, removed_desc(known0, snapshot@));
        let mut m: usize = 0;
        proof {
            assert(added@.subrange(0, 0) =~= Seq::<DeviceInfos>::empty());
            assert(rpairs + tag_all(NotificationKind::Added, added@.subrange(0, 0)) =~= rpairs);
        }
        while m < added.len()
            invariant
                m <= added@.len(),
                tb == aliases@,
                notes_view(notes@) == spec_notes(
                    rpairs + tag_all(NotificationKind::Added, added@.subrange(0, m as int)),
                    tb,
                    Seq::empty(),
                ),
                strs_view(seen@) == spec_seen(
                    rpairs + tag_all(NotificationKind::Added, added@.subrange(0, m as int)),
                    tb,
                    Seq::empty(),
                ),
            decreases added@.len() - m,
        {
            let d: &DeviceInfos = &added[m];
            let ghost p0 = rpairs + tag_all(NotificationKind::Added, added@.subrange(0, m as int));
            push_note(&mut notes, &mut seen, NotificationKind::Added, d, aliases);
            proof {
                let x = seq![(NotificationKind::Added, added@[m as int])];
                assert(rpairs + tag_all(
                    NotificationKind::Added,
                    added@.subrange(0, m as int + 1),
                ) =~= p0 + x);
                lemma_notes_append(p0, x, tb, Seq::empty());
            }
            m = m + 1;
        }
        proof {
            assert(added@.subrange(0, added@.len() as int) =~= added@);
        }

        // Apply the diff: keep the still-enumerated entries, then append
        // the additions.
        let mut kept: Vec<DeviceInfos> = Vec::new();
        proof {
            assert(known0.subrange(0, 0) =~= Seq::<DeviceInfos>::empty());
            assert(kept@ =~= keep_known(known0.subrange(0, 0), snapshot@));
        }
        let mut k: usize = 0;
        while k < self.devices.len()
            invariant
                k <= known0.len(),
                self.devices@ == known0,
                kept@ == keep_known(known0.subrange(0, k as int), snapshot@),
            decreases known0.len() - k,
        {
            let d: &DeviceInfos = &self.devices[k];
            proof {
                assert(known0.subrange(0, k as int + 1).drop_last() =~= known0.subrange(
                    0,
                    k as int,
                ));
                assert(known0.subrange(0, k as int + 1).last() == known0[k as int]);
            }
            if contains_id(snapshot, d.device) {
                kept.push(clone_infos(d));
                proof {
                    assert(kept@ =~= keep_known(known0.subrange(0, k as int), snapshot@) + seq![
                        known0[k as int],
                    ]);
                }
            }
            k = k + 1;
        }
        proof {
            assert(known0.subrange(0, known0.len() as int) =~= known0);
        }
        self.devices = kept;
        self.devices.append(&mut added);
        proof {
            if distinct_ids(known0) {
                lemma_keep_props(known0, snapshot@);
                lemma_added_props(snapshot@, known0, ig, tb);
                let kp = keep_known(known0, snapshot@);
                let ad = added_devices(snapshot@, known0, ig, tb);
                assert forall|x: int, y: int|
                    0 <= x < y < self.devices@.len() implies self.devices@[x].device
                    != self.devices@[y].device by {
                    if y < kp.len() {
                        assert(self.devices@[x] == kp[x]);
                        assert(self.devices@[y] == kp[y]);
                    } else if x >= kp.len() {
                        assert(self.devices@[x] == ad[x - kp.len()]);
                        assert(self.devices@[y] == ad[y - kp.len()]);
                    } else {
                        assert(self.devices@[x] == kp[x]);
                        assert(self.devices@[y] == ad[y - kp.len()]);
                        assert(has_id(known0, kp[x].device));
                        assert(!has_id(known0, ad[y - kp.len()].device));
                    }
                }
            }
        }
        notes
    }
}

/// A known set whose entries are all still enumerated is kept whole.
proof fn lemma_keep_all(k: Seq<DeviceInfos>, s: Seq<DeviceInfos>)
    requires
        forall|i: int| 0 <= i < k.len() ==> has_id(s, (#[trigger] k[i]).device),
    ensures
        keep_known(k, s) == k,
    decreases k.len(),
{
    if k.len() == 0 {
        assert(keep_known(k, s) =~= k);
    } else {
        assert forall|i: int| 0 <= i < k.drop_last().len() implies has_id(
            s,
            (#[trigger] k.drop_last()[i]).device,
        ) by {
            assert(k.drop_last()[i] == k[i]);
        }
        lemma_keep_all(k.drop_last(), s);
        assert(has_id(s, k[k.len() - 1].device));
        assert(k.drop_last() + seq![k.last()] =~= k);
    }
}

/// A known set whose entries are all still enumerated loses nothing.
proof fn lemma_removed_none(k: Seq<DeviceInfos>, s: Seq<DeviceInfos>)
    requires
        forall|i: int| 0 <= i < k.len() ==> has_id(s, (#[trigger] k[i]).device),
    ensures
        removed_desc(k, s) == Seq::<DeviceInfos>::empty(),
    decreases k.len(),
{
    if k.len() == 0 {
        assert(removed_desc(k, s) =~= Seq::<DeviceInfos>::empty());
    } else {
        assert forall|i: int| 0 <= i < k.drop_last().len() implies has_id(
            s,
            (#[trigger] k.drop_last()[i]).device,
        ) by {
            assert(k.drop_last()[i] == k[i]);
        }
        lemma_removed_none(k.drop_last(), s);
        assert(has_id(s, k[k.len() - 1].device));
    }
}

/// A known entry that is still enumerated stands in the kept list.
proof fn lemma_keep_covers(k: Seq<DeviceInfos>, s: Seq<DeviceInfos>)
    ensures
        forall|w: int|
            0 <= w < k.len() && has_id(s, (#[trigger] k[w]).device) ==> has_id(
                keep_known(k, s),
                k[w].device,
            ),
    decreases k.len(),
{
    if k.len() == 0 {
    } else {
        lemma_keep_covers(k.drop_last(), s);
        let kp = keep_known(k, s);
        let fr = keep_known(k.drop_last(), s);
        assert forall|w: int| 0 <= w < k.len() && has_id(s, (#[trigger] k[w]).device) implies has_id(
            kp,
            k[w].device,
        ) by {
            if w < k.len() - 1 {
                assert(k.drop_last()[w] == k[w]);
                assert(has_id(fr, k[w].device));
                let u = choose|u: int| 0 <= u < fr.len() && fr[u].device == k[w].device;
                if has_id(s, k.last().device) {
                    assert(kp == fr + seq![k.last()]);
                    assert(kp[u].device == k[w].device);
                } else {
                    assert(kp == fr);
                }
            } else {
                assert(k[w] == k.last());
                assert(kp == fr + seq![k.last()]);
                assert(kp[fr.len() as int].device == k[w].device);
            }
        }
    }
}

/// A non-ignored snapshot entry is covered: its identity was already
/// accumulated or stands among the added devices.
proof fn lemma_added_covers(
    snap: Seq<DeviceInfos>,
    k: Seq<DeviceInfos>,
    ignore: Seq<Seq<char>>,
    table: Seq<KeyValue>,
)
    ensures
        forall|j: int|
            0 <= j < snap.len() && !is_ignored(#[trigger] snap[j], ignore, table) ==> has_id(
                k,
                snap[j].device,
            ) || has_id(added_devices(snap, k, ignore, table), snap[j].device),
    decreases snap.len(),
{
    if snap.len() == 0 {
    } else {
        let d = snap[0];
        let rest = snap.drop_first();
        let a = added_devices(snap, k, ignore, table);
        if !has_id(k, d.device) && !is_ignored(d, ignore, table) {
            lemma_added_covers(rest, k.push(d), ignore, table);
            let a2 = added_devices(rest, k.push(d), ignore, table);
            assert(a == seq![d] + a2);
            assert forall|j: int|
                0 <= j < snap.len() && !is_ignored(#[trigger] snap[j], ignore, table) implies
                has_id(k, snap[j].device) || has_id(a, snap[j].device) by {
                if j == 0 {
                    assert(a[0].device == snap[0].device);
                    assert(has_id(a, snap[0].device));
                } else {
                    assert(rest[j - 1] == snap[j]);
                    if has_id(k.push(d), snap[j].device) {
                        let w = choose|w: int|
                            0 <= w < k.push(d).len() && k.push(d)[w].device == snap[j].device;
                        if w < k.len() {
                            assert(k[w].device == snap[j].device);
                            assert(has_id(k, snap[j].device));
                        } else {
                            assert(k.push(d)[w] == d);
                            assert(a[0].device == snap[j].device);
                            assert(has_id(a, snap[j].device));
                        }
                    } else {
                        assert(has_id(a2, snap[j].device));
                        let w = choose|w: int|
                            0 <= w < a2.len() && a2[w].device == snap[j].device;
                        assert(a[w + 1].device == snap[j].device);
                        assert(has_id(a, snap[j].device));
                    }
                }
            }
        } else {
            lemma_added_covers(rest, k, ignore, table);
            assert(a == added_devices(rest, k, ignore, table));
            assert forall|j: int|
                0 <= j < snap.len() && !is_ignored(#[trigger] snap[j], ignore, table) implies
                has_id(k, snap[j].device) || has_id(a, snap[j].device) by {
                if j == 0 {
                    assert(has_id(k, snap[0].device));
                } else {
                    assert(rest[j - 1] == snap[j]);
                }
            }
        }
    }
}

/// A snapshot of covered or ignored entries adds nothing.
proof fn lemma_added_none(
    snap: Seq<DeviceInfos>,
    k: Seq<DeviceInfos>,
    ignore: Seq<Seq<char>>,
    table: Seq<KeyValue>,
)
    requires
        forall|j: int|
            0 <= j < snap.len() ==> has_id(k, (#[trigger] snap[j]).device) || is_ignored(
                snap[j],
                ignore,
                table,
            ),
    ensures
        added_devices(snap, k, ignore, table) == Seq::<DeviceInfos>::empty(),
    decreases snap.len(),
{
    if snap.len() == 0 {
        assert(added_devices(snap, k, ignore, table) =~= Seq::<DeviceInfos>::empty());
    } else {
        assert(has_id(k, snap[0].device) || is_ignored(snap[0], ignore, table));
        assert forall|j: int|
            0 <= j < snap.drop_first().len() implies has_id(
            k,
            (#[trigger] snap.drop_first()[j]).device,
        ) || is_ignored(snap.drop_first()[j], ignore, table) by {
            assert(snap.drop_first()[j] == snap[j + 1]);
        }
        lemma_added_none(snap.drop_first(), k, ignore, table);
    }
}

/// Event labels are never the internal label, never already notified, and
/// never repeat.
proof fn lemma_notes_props(
    ds: Seq<(NotificationKind, DeviceInfos)>,
    table: Seq<KeyValue>,
    seen: Seq<Seq<char>>,
)
    ensures
        forall|x: int|
            0 <= x < spec_notes(ds, table, seen).len() ==> (#[trigger] spec_notes(
                ds,
                table,
                seen,
            )[x]).1 != internal_key() && !seen.contains(spec_notes(ds, table, seen)[x].1),
        forall|x: int, y: int|
            0 <= x < y < spec_notes(ds, table, seen).len() ==> (#[trigger] spec_notes(
                ds,
                table,
                seen,
            )[x]).1 != (#[trigger] spec_notes(ds, table, seen)[y]).1,
    decreases ds.len(),
{
    if ds.len() == 0 {
    } else {
        let out = spec_notes(ds, table, seen);
        let l = label_of(ds[0].1, table);
        if l != internal_key() && !seen.contains(l) {
            lemma_notes_props(ds.drop_first(), table, seen.push(l));
            let out2 = spec_notes(ds.drop_first(), table, seen.push(l));
            assert(out == seq![(ds[0].0, l)] + out2);
            assert forall|x: int|
                0 <= x < out.len() implies (#[trigger] out[x]).1 != internal_key()
                && !seen.contains(out[x].1) by {
                if x > 0 {
                    assert(out[x] == out2[x - 1]);
                    assert(!seen.push(l).contains(out2[x - 1].1));
                    if seen.contains(out2[x - 1].1) {
                        let w = choose|w: int|
                            0 <= w < seen.len() && seen[w] == out2[x - 1].1;
                        assert(seen.push(l)[w] == out2[x - 1].1);
                        assert(seen.push(l).contains(out2[x - 1].1));
                    }
                }
            }
            assert forall|x: int, y: int|
                0 <= x < y < out.len() implies (#[trigger] out[x]).1 != (#[trigger] out[y]).1 by {
                assert(out[y] == out2[y - 1]);
                if x == 0 {
                    assert(!seen.push(l).contains(out2[y - 1].1));
                    if out2[y - 1].1 == l {
                        assert(seen.push(l)[seen.len() as int] == l);
                        assert(seen.push(l).contains(out2[y - 1].1));
                    }
                } else {
                    assert(out[x] == out2[x - 1]);
                }
            }
        } else {
            lemma_notes_props(ds.drop_first(), table, seen);
            let out2 = spec_notes(ds.drop_first(), table, seen);
            assert(out == out2);
            assert forall|x: int|
                0 <= x < out.len() implies (#[trigger] out[x]).1 != internal_key()
                && !seen.contains(out[x].1) by {
                assert(out[x] == out2[x]);
            }
            assert forall|x: int, y: int|
                0 <= x < y < out.len() implies (#[trigger] out[x]).1 != (#[trigger] out[y]).1 by {
                assert(out[x] == out2[x]);
                assert(out[y] == out2[y]);
            }
        }
    }
}

/// Every event stems from a transition in the list, with its kind and its
/// label.
proof fn lemma_notes_sources(
    ds: Seq<(NotificationKind, DeviceInfos)>,
    table: Seq<KeyValue>,
    seen: Seq<Seq<char>>,
)
    ensures
        forall|x: int|
            0 <= x < spec_notes(ds, table, seen).len() ==> exists|i: int|
                0 <= i < ds.len() && (#[trigger] spec_notes(ds, table, seen)[x]).0 == ds[i].0
                    && spec_notes(ds, table, seen)[x].1 == label_of(ds[i].1, table),
    decreases ds.len(),
{
    if ds.len() == 0 {
    } else {
        let out = spec_notes(ds, table, seen);
        let l = label_of(ds[0].1, table);
        if l != internal_key() && !seen.contains(l) {
            lemma_notes_sources(ds.drop_first(), table, seen.push(l));
            let out2 = spec_notes(ds.drop_first(), table, seen.push(l));
            assert(out == seq![(ds[0].0, l)] + out2);
            assert forall|x: int|
                0 <= x < out.len() implies exists|i: int|
                0 <= i < ds.len() && (#[trigger] out[x]).0 == ds[i].0 && out[x].1 == label_of(
                    ds[i].1,
                    table,
                ) by {
                if x == 0 {
                    assert(out[0].0 == ds[0].0 && out[0].1 == label_of(ds[0].1, table));
                } else {
                    assert(out[x] == out2[x - 1]);
                    let i = choose|i: int|
                        0 <= i < ds.drop_first().len() && out2[x - 1].0 == ds.drop_first()[i].0
                            && out2[x - 1].1 == label_of(ds.drop_first()[i].1, table);
                    assert(ds[i + 1] == ds.drop_first()[i]);
                    assert(out[x].0 == ds[i + 1].0 && out[x].1 == label_of(ds[i + 1].1, table));
                }
            }
        } else {
            lemma_notes_sources(ds.drop_first(), table, seen);
            let out2 = spec_notes(ds.drop_first(), table, seen);
            assert(out == out2);
            assert forall|x: int|
                0 <= x < out.len() implies exists|i: int|
                0 <= i < ds.len() && (#[trigger] out[x]).0 == ds[i].0 && out[x].1 == label_of(
                    ds[i].1,
                    table,
                ) by {
                assert(out[x] == out2[x]);
                let i = choose|i: int|
                    0 <= i < ds.drop_first().len() && out2[x].0 == ds.drop_first()[i].0
                        && out2[x].1 == label_of(ds.drop_first()[i].1, table);
                assert(ds[i + 1] == ds.drop_first()[i]);
                assert(out[x].0 == ds[i + 1].0 && out[x].1 == label_of(ds[i + 1].1, table));
            }
        }
    }
}

/// Reconciliation is idempotent: a second poll with an unchanged snapshot
/// leaves the known set as it is and notifies nothing.
pub proof fn lemma_reconcile_idempotent(
    known: Seq<DeviceInfos>,
    snap: Seq<DeviceInfos>,
    ignore: Seq<Seq<char>>,
    table: Seq<KeyValue>,
)
    ensures
        new_known(new_known(known, snap, ignore, table), snap, ignore, table) == new_known(
            known,
            snap,
            ignore,
            table,
        ),
        reconcile_events(new_known(known, snap, ignore, table), snap, ignore, table) == Seq::<
            (NotificationKind, Seq<char>),
        >::empty(),
{
    let k1 = new_known(known, snap, ignore, table);
    let kp = keep_known(known, snap);
    let ad = added_devices(snap, known, ignore, table);
    lemma_keep_props(known, snap);
    lemma_added_props(snap, known, ignore, table);
    assert forall|i: int| 0 <= i < k1.len() implies has_id(snap, (#[trigger] k1[i]).device) by {
        if i < kp.len() {
            assert(k1[i] == kp[i]);
        } else {
            assert(k1[i] == ad[i - kp.len()]);
        }
    }
    lemma_keep_all(k1, snap);
    lemma_removed_none(k1, snap);
    lemma_keep_covers(known, snap);
    lemma_added_covers(snap, known, ignore, table);
    assert forall|j: int|
        0 <= j < snap.len() implies has_id(k1, (#[trigger] snap[j]).device) || is_ignored(
        snap[j],
        ignore,
        table,
    ) by {
        if !is_ignored(snap[j], ignore, table) {
            if has_id(known, snap[j].device) {
                let w = choose|w: int| 0 <= w < known.len() && known[w].device == snap[j].device;
                assert(has_id(snap, known[w].device));
                assert(has_id(kp, known[w].device));
                let u = choose|u: int| 0 <= u < kp.len() && kp[u].device == known[w].device;
                assert(k1[u].device == snap[j].device);
                assert(has_id(k1, snap[j].device));
            } else {
                assert(has_id(ad, snap[j].device));
                let u = choose|u: int| 0 <= u < ad.len() && ad[u].device == snap[j].device;
                assert(k1[kp.len() + u].device == snap[j].device);
                assert(has_id(k1, snap[j].device));
            }
        }
    }
    lemma_added_none(snap, k1, ignore, table);
    assert(keep_known(k1, snap) + added_devices(snap, k1, ignore, table) =~= k1);
    assert(tag_all(NotificationKind::Removed, removed_desc(k1, snap)) + tag_all(
        NotificationKind::Added,
        added_devices(snap, k1, ignore, table),
    ) =~= Seq::<(NotificationKind, DeviceInfos)>::empty());
    assert(reconcile_events(k1, snap, ignore, table) == Seq::<
        (NotificationKind, Seq<char>),
    >::empty());
}

/// Within one poll no label is notified twice, and the internal label is
/// never notified: two transitions resolving to the same alias yield one
/// event.
pub proof fn lemma_events_unique(
    known: Seq<DeviceInfos>,
    snap: Seq<DeviceInfos>,
    ignore: Seq<Seq<char>>,
    table: Seq<KeyValue>,
)
    ensures
        ({
            let ev = reconcile_events(known, snap, ignore, table);
            &&& forall|x: int, y: int|
                0 <= x < y < ev.len() ==> (#[trigger] ev[x]).1 != (#[trigger] ev[y]).1
            &&& forall|x: int| 0 <= x < ev.len() ==> (#[trigger] ev[x]).1 != internal_key()
        }),
{
    let pairs = tag_all(NotificationKind::Removed, removed_desc(known, snap)) + tag_all(
        NotificationKind::Added,
        added_devices(snap, known, ignore, table),
    );
    lemma_notes_props(pairs, table, Seq::empty());
}

/// An ignored device is never inserted into the known set, and every
/// addition event stems from a non-ignored, newly added device.
pub proof fn lemma_ignored_suppressed(
    known: Seq<DeviceInfos>,
    snap: Seq<DeviceInfos>,
    ignore: Seq<Seq<char>>,
    table: Seq<KeyValue>,
)
    ensures
        ({
            let ad = added_devices(snap, known, ignore, table);
            let ev = reconcile_events(known, snap, ignore, table);
            &&& forall|i: int| 0 <= i < ad.len() ==> !is_ignored(#[trigger] ad[i], ignore, table)
            &&& forall|i: int|
                0 <= i < ad.len() ==> !has_id(known, (#[trigger] ad[i]).device)
            &&& forall|x: int|
                0 <= x < ev.len() && (#[trigger] ev[x]).0 == NotificationKind::Added
                    ==> exists|i: int| 0 <= i < ad.len() && ev[x].1 == label_of(ad[i], table)
        }),
{
    let ad = added_devices(snap, known, ignore, table);
    let ev = reconcile_events(known, snap, ignore, table);
    let r = tag_all(NotificationKind::Removed, removed_desc(known, snap));
    let pairs = r + tag_all(NotificationKind::Added, ad);
    lemma_added_props(snap, known, ignore, table);
    lemma_notes_sources(pairs, table, Seq::empty());
    assert forall|x: int|
        0 <= x < ev.len() && (#[trigger] ev[x]).0 == NotificationKind::Added implies exists|i: int|
        0 <= i < ad.len() && ev[x].1 == label_of(ad[i], table) by {
        let i = choose|i: int|
            0 <= i < pairs.len() && ev[x].0 == pairs[i].0 && ev[x].1 == label_of(
                pairs[i].1,
                table,
            );
        if i < r.len() {
            assert(pairs[i] == r[i]);
            assert(r[i].0 == NotificationKind::Removed);
        } else {
            assert(pairs[i] == tag_all(NotificationKind::Added, ad)[i - r.len()]);
            assert(pairs[i].1 == ad[i - r.len()]);
            assert(ev[x].1 == label_of(ad[i - r.len()], table));
        }
    }
}

/// Removal events come before addition events: once an addition has been
/// reported, everything after it in the same poll is an addition too.
pub proof fn lemma_removals_first(
    known: Seq<DeviceInfos>,
    snap: Seq<DeviceInfos>,
    ignore: Seq<Seq<char>>,
    table: Seq<KeyValue>,
)
    ensures
        ({
            let ev = reconcile_events(known, snap, ignore, table);
            forall|x: int, y: int|
                0 <= x < y < ev.len() && (#[trigger] ev[x]).0 == NotificationKind::Added
                    ==> (#[trigger] ev[y]).0 == NotificationKind::Added
        }),
{
    let r = tag_all(NotificationKind::Removed, removed_desc(known, snap));
    let a = tag_all(NotificationKind::Added, added_devices(snap, known, ignore, table));
    let ev = reconcile_events(known, snap, ignore, table);
    lemma_notes_append(r, a, table, Seq::empty());
    let er = spec_notes(r, table, Seq::empty());
    let ea = spec_notes(a, table, spec_seen(r, table, Seq::empty()));
    lemma_notes_sources(r, table, Seq::empty());
    lemma_notes_sources(a, table, spec_seen(r, table, Seq::empty()));
    assert(ev == er + ea);
    assert forall|x: int, y: int|
        0 <= x < y < ev.len() && (#[trigger] ev[x]).0 == NotificationKind::Added implies (
    #[trigger] ev[y]).0 == NotificationKind::Added by {
        if x < er.len() {
            assert(ev[x] == er[x]);
            let i = choose|i: int|
                0 <= i < r.len() && er[x].0 == r[i].0 && er[x].1 == label_of(r[i].1, table);
            assert(r[i].0 == NotificationKind::Removed);
        } else {
            assert(ev[y] == ea[y - er.len()]);
            let i = choose|i: int|
                0 <= i < a.len() && ea[y - er.len()].0 == a[i].0 && ea[y - er.len()].1
                    == label_of(a[i].1, table);
            assert(a[i].0 == NotificationKind::Added);
        }
    }
}

/// An empty snapshot removes every known device: the new known set is
/// empty, and the removal list holds every old entry, highest index first.
pub proof fn lemma_empty_snapshot(
    known: Seq<DeviceInfos>,
    ignore: Seq<Seq<char>>,
    table: Seq<KeyValue>,
)
    ensures
        new_known(known, Seq::empty(), ignore, table) == Seq::<DeviceInfos>::empty(),
        removed_desc(known, Seq::empty()).len() == known.len(),
        forall|i: int|
            0 <= i < known.len() ==> #[trigger] removed_desc(known, Seq::empty())[i] == known[
                known.len() - 1 - i
            ],
    decreases known.len(),
{
    let snap = Seq::<DeviceInfos>::empty();
    if known.len() == 0 {
        assert(keep_known(known, snap) + added_devices(snap, known, ignore, table) =~= Seq::<
            DeviceInfos,
        >::empty());
    } else {
        lemma_empty_snapshot(known.drop_last(), ignore, table);
        assert(!has_id(snap, known.last().device));
        assert(keep_known(known, snap) == keep_known(known.drop_last(), snap));
        assert(new_known(known.drop_last(), snap, ignore, table) == keep_known(
            known.drop_last(),
            snap,
        ) + added_devices(snap, known.drop_last(), ignore, table));
        assert(keep_known(known, snap) + added_devices(snap, known, ignore, table) =~= Seq::<
            DeviceInfos,
        >::empty());
        let rd = removed_desc(known, snap);
        let fr = removed_desc(known.drop_last(), snap);
        assert(rd == seq![known.last()] + fr);
        assert forall|i: int|
            0 <= i < known.len() implies #[trigger] rd[i] == known[known.len() - 1 - i] by {
            if i > 0 {
                assert(rd[i] == fr[i - 1]);
                assert(fr[i - 1] == known.drop_last()[known.drop_last().len() - 1 - (i - 1)]);
            }
        }
    }
}

} // verus!
