use std::time::SystemTime;

use vstd::prelude::*;

use crate::chars::chars_of;
use crate::tmux::{
    observed_views, placeholder_snapshot, ObservedSession, ObservedSessionView, PaneSnapshot, PaneSnapshotView,
};

verus! {

#[verifier::external_type_specification]
#[verifier::external_body]
pub struct ExSystemTime(SystemTime);

/// The `Clone` of `std::time::SystemTime`, a `Copy` type: the copy equals the
/// value it was made from.
pub assume_specification[ <SystemTime as Clone>::clone ](t: &SystemTime) -> (res: SystemTime)
    ensures
        res == *t,
;

/// Whether tmux still reports a session.
#[derive(Debug, Clone, Copy, PartialEq, Eq, Structural)]
pub enum SessionStatus {
    Live,
    Dead,
}

/// The colour of a session's tile border.
#[derive(Debug, Clone, Copy, PartialEq, Eq, Structural)]
pub enum Accent {
    Cyan,
    Green,
    Yellow,
    Blue,
    Magenta,
    LightRed,
}

/// The palette that session colours are taken from, by position.
pub open spec fn palette(index: int) -> Accent {
    if index == 0 {
        Accent::Cyan
    } else if index == 1 {
        Accent::Green
    } else if index == 2 {
        Accent::Yellow
    } else if index == 3 {
        Accent::Blue
    } else if index == 4 {
        Accent::Magenta
    } else {
        Accent::LightRed
    }
}

/// The hash of `bytes`: starting from 0, each byte in turn is added to 31
/// times the hash so far, wrapping around at the width of `usize`.
pub open spec fn name_hash(bytes: Seq<u8>) -> usize
    decreases bytes.len(),
{
    if bytes.len() == 0 {
        0
    } else {
        name_hash(bytes.drop_last()).wrapping_mul(31).wrapping_add(bytes.last() as usize)
    }
}

/// The colour of the session `name`: the palette entry that the hash of its
/// UTF-8 bytes selects.
pub open spec fn accent_spec(name: Seq<char>) -> Accent {
    palette((name_hash(vstd::utf8::encode_utf8(name)) % 6) as int)
}

/// The colour of the session `name`.
pub fn accent_for_name(name: &str) -> (a: Accent)
    ensures
        a == accent_spec(name@),
{
    let bytes = name.as_bytes();
    let mut hash: usize = 0;
    let mut i: usize = 0;
    while i < bytes.len()
        invariant
            i <= bytes@.len(),
            bytes@ == vstd::utf8::encode_utf8(name@),
            hash == name_hash(bytes@.take(i as int)),
        decreases bytes@.len() - i,
    {
        assert(bytes@.take(i + 1).drop_last() =~= bytes@.take(i as int));
        hash = hash.wrapping_mul(31).wrapping_add(bytes[i] as usize);
        i += 1;
    }
    assert(bytes@.take(i as int) =~= bytes@);
    match hash % 6 {
        0 => Accent::Cyan,
        1 => Accent::Green,
        2 => Accent::Yellow,
        3 => Accent::Blue,
        4 => Accent::Magenta,
        _ => Accent::LightRed,
    }
}

/// What the store keeps of one session.
#[derive(Debug, PartialEq, Eq)]
pub struct SessionRecord {
    pub name: String,
    pub active_pane_id: String,
    pub status: SessionStatus,
    pub last_seen: SystemTime,
    pub snapshot: PaneSnapshot,
    pub hidden: bool,
    pub accent: Accent,
    pub stale_reason: Option<String>,
}

/// What a record holds, as views.
pub struct SessionRecordView {
    pub name: Seq<char>,
    pub active_pane_id: Seq<char>,
    pub status: SessionStatus,
    pub last_seen: SystemTime,
    pub snapshot: PaneSnapshotView,
    pub hidden: bool,
    pub accent: Accent,
    pub stale_reason: Option<Seq<char>>,
}

impl View for SessionRecord {
    type V = SessionRecordView;

    open spec fn view(&self) -> SessionRecordView {
        SessionRecordView {
            name: self.name@,
            active_pane_id: self.active_pane_id@,
            status: self.status,
            last_seen: self.last_seen,
            snapshot: self.snapshot@,
            hidden: self.hidden,
            accent: self.accent,
            stale_reason: match self.stale_reason {
                Some(r) => Some(r@),
                None => None,
            },
        }
    }
}

impl Clone for SessionRecord {
    fn clone(&self) -> (c: Self)
        ensures
            c@ == self@,
    {
        SessionRecord {
            name: self.name.clone(),
            active_pane_id: self.active_pane_id.clone(),
            status: self.status,
            last_seen: self.last_seen.clone(),
            snapshot: self.snapshot.clone(),
            hidden: self.hidden,
            accent: self.accent,
            stale_reason: self.stale_reason.clone(),
        }
    }
}

impl SessionRecord {
    /// Whether tmux still reports the session.
    pub fn is_live(&self) -> (b: bool)
        ensures
            b == (self.status == SessionStatus::Live),
    {
        self.status == SessionStatus::Live
    }

    /// Whether tmux no longer reports the session.
    pub fn is_dead(&self) -> (b: bool)
        ensures
            b == (self.status == SessionStatus::Dead),
    {
        self.status == SessionStatus::Dead
    }
}

/// `a` comes before `b` in the order of names: character by character, by
/// code point, a proper prefix first. (This is the order of the names' UTF-8
/// bytes, in which a `String` map keeps them.)
pub open spec fn name_lt(a: Seq<char>, b: Seq<char>) -> bool
    decreases a.len(),
{
    if a.len() == 0 {
        b.len() > 0
    } else if b.len() == 0 {
        false
    } else if a[0] != b[0] {
        a[0] < b[0]
    } else {
        name_lt(a.drop_first(), b.drop_first())
    }
}

pub proof fn lemma_name_lt_irreflexive(a: Seq<char>)
    ensures
        !name_lt(a, a),
    decreases a.len(),
{
    if a.len() > 0 {
        lemma_name_lt_irreflexive(a.drop_first());
    }
}

pub proof fn lemma_name_lt_transitive(a: Seq<char>, b: Seq<char>, c: Seq<char>)
    requires
        name_lt(a, b),
        name_lt(b, c),
    ensures
        name_lt(a, c),
    decreases a.len(),
{
    if a.len() > 0 && b.len() > 0 && c.len() > 0 && a[0] == b[0] && b[0] == c[0] {
        lemma_name_lt_transitive(a.drop_first(), b.drop_first(), c.drop_first());
    }
}

pub proof fn lemma_name_lt_total(a: Seq<char>, b: Seq<char>)
    ensures
        a == b || name_lt(a, b) || name_lt(b, a),
    decreases a.len(),
{
    if a.len() > 0 && b.len() > 0 {
        if a[0] == b[0] {
            lemma_name_lt_total(a.drop_first(), b.drop_first());
            if a.drop_first() == b.drop_first() {
                assert(a =~= seq![a[0]] + a.drop_first());
                assert(b =~= seq![b[0]] + b.drop_first());
            }
        } else {
            assert(a[0] != b[0]);
        }
    } else if a.len() == 0 && b.len() == 0 {
        assert(a =~= b);
    }
}

pub proof fn lemma_name_lt_asymmetric(a: Seq<char>, b: Seq<char>)
    requires
        name_lt(a, b),
    ensures
        !name_lt(b, a),
{
    if name_lt(b, a) {
        lemma_name_lt_transitive(a, b, a);
        lemma_name_lt_irreflexive(a);
    }
}

/// The records are in strictly increasing order of name; so no name occurs
/// twice.
pub open spec fn names_sorted(s: Seq<SessionRecordView>) -> bool {
    forall|i: int, j: int| 0 <= i < j < s.len() ==> name_lt(#[trigger] s[i].name, #[trigger] s[j].name)
}

/// Each record has the colour that its name selects.
pub open spec fn accents_follow_names(s: Seq<SessionRecordView>) -> bool {
    forall|i: int| 0 <= i < s.len() ==> (#[trigger] s[i]).accent == accent_spec(s[i].name)
}

/// The records of `s` by name.
pub open spec fn record_map(s: Seq<SessionRecordView>) -> Map<Seq<char>, SessionRecordView>
    decreases s.len(),
{
    if s.len() == 0 {
        Map::empty()
    } else {
        record_map(s.drop_last()).insert(s.last().name, s.last())
    }
}

pub proof fn lemma_record_map_keys(s: Seq<SessionRecordView>, k: Seq<char>)
    ensures
        record_map(s).contains_key(k) <==> exists|i: int| 0 <= i < s.len() && #[trigger] s[i].name == k,
    decreases s.len(),
{
    if s.len() > 0 {
        lemma_record_map_keys(s.drop_last(), k);
        if record_map(s.drop_last()).contains_key(k) {
            let i = choose|i: int| 0 <= i < s.drop_last().len() && #[trigger] s.drop_last()[i].name == k;
            assert(s[i].name == k);
        }
        if exists|i: int| 0 <= i < s.len() && #[trigger] s[i].name == k {
            let i = choose|i: int| 0 <= i < s.len() && #[trigger] s[i].name == k;
            if i < s.len() - 1 {
                assert(s.drop_last()[i].name == k);
            }
        }
    }
}

pub proof fn lemma_record_map_value(s: Seq<SessionRecordView>, i: int)
    requires
        names_sorted(s),
        0 <= i < s.len(),
    ensures
        record_map(s).contains_key(s[i].name),
        record_map(s)[s[i].name] == s[i],
    decreases s.len(),
{
    lemma_record_map_keys(s, s[i].name);
    if i == s.len() - 1 {
    } else {
        let t = s.drop_last();
        assert(names_sorted(t)) by {
            assert forall|a: int, b: int| 0 <= a < b < t.len() implies name_lt(#[trigger] t[a].name, #[trigger] t[b].name) by {
                assert(t[a] == s[a] && t[b] == s[b]);
            }
        }
        assert(t[i] == s[i]);
        lemma_record_map_value(t, i);
        assert(name_lt(s[i].name, s.last().name));
        lemma_name_lt_irreflexive(s[i].name);
    }
}

/// How two names are ordered.
#[derive(Debug, Clone, Copy, PartialEq, Eq, Structural)]
pub enum NameOrder {
    Before,
    Same,
    After,
}

/// How the name `a` stands to the name `b`.
pub fn compare_names(a: &str, b: &str) -> (o: NameOrder)
    ensures
        (o == NameOrder::Before) == name_lt(a@, b@),
        (o == NameOrder::Same) == (a@ == b@),
        (o == NameOrder::After) == name_lt(b@, a@),
{
    let x = chars_of(a);
    let y = chars_of(b);
    let mut i: usize = 0;
    proof {
        assert(x@.skip(0) =~= x@);
        assert(y@.skip(0) =~= y@);
    }
    while i < x.len() && i < y.len() && x[i] == y[i]
        invariant
            i <= x@.len(),
            i <= y@.len(),
            x@.take(i as int) == y@.take(i as int),
            name_lt(x@, y@) == name_lt(x@.skip(i as int), y@.skip(i as int)),
            name_lt(y@, x@) == name_lt(y@.skip(i as int), x@.skip(i as int)),
        decreases x@.len() - i,
    {
        assert(x@.skip(i as int).drop_first() =~= x@.skip(i + 1));
        assert(y@.skip(i as int).drop_first() =~= y@.skip(i + 1));
        assert(x@.take(i + 1) =~= x@.take(i as int).push(x@[i as int]));
        assert(y@.take(i + 1) =~= y@.take(i as int).push(y@[i as int]));
        i += 1;
    }
    proof {
        lemma_name_lt_irreflexive(x@);
        lemma_name_lt_total(x@, y@);
        if name_lt(x@, y@) {
            lemma_name_lt_asymmetric(x@, y@);
        }
    }
    if i == x.len() && i == y.len() {
        assert(x@ =~= x@.take(i as int));
        assert(y@ =~= y@.take(i as int));
        NameOrder::Same
    } else if i == x.len() {
        assert(x@.skip(i as int).len() == 0);
        assert(x@ != y@);
        NameOrder::Before
    } else if i == y.len() {
        assert(y@.skip(i as int).len() == 0);
        assert(x@ != y@);
        NameOrder::After
    } else {
        assert(x@[i as int] != y@[i as int]);
        assert(x@ != y@);
        if x[i] < y[i] {
            NameOrder::Before
        } else {
            NameOrder::After
        }
    }
}

/// The records of `s` that are not hidden, in their order.
pub open spec fn visible_of(s: Seq<SessionRecordView>) -> Seq<SessionRecordView>
    decreases s.len(),
{
    if s.len() == 0 {
        seq![]
    } else if s.last().hidden {
        visible_of(s.drop_last())
    } else {
        visible_of(s.drop_last()).push(s.last())
    }
}

/// The snapshot that a session shows before any capture of it succeeded.
pub open spec fn fallback_snapshot_view() -> PaneSnapshotView {
    placeholder_snapshot("Snapshot unavailable"@, 1, 1)
}

fn fallback_snapshot() -> (s: PaneSnapshot)
    ensures
        s@ == fallback_snapshot_view(),
{
    PaneSnapshot::placeholder("Snapshot unavailable", 1, 1)
}

/// The record of the live session `o`, seen at `now`, where `prev` is its
/// record before: the latest capture where it succeeded, and otherwise the
/// snapshot before (or the placeholder) with the capture's error as the
/// reason that it is stale. The colour follows from the name.
pub open spec fn upserted_record(
    prev: Option<SessionRecordView>,
    o: ObservedSessionView,
    now: SystemTime,
) -> SessionRecordView {
    SessionRecordView {
        name: o.name,
        active_pane_id: o.active_pane_id,
        status: SessionStatus::Live,
        last_seen: now,
        snapshot: match o.capture {
            Ok(s) => s,
            Err(_) => match prev {
                Some(p) => p.snapshot,
                None => fallback_snapshot_view(),
            },
        },
        hidden: false,
        accent: accent_spec(o.name),
        stale_reason: match o.capture {
            Ok(_) => None,
            Err(e) => Some(e),
        },
    }
}

/// The records `m` once the live session `o` is recorded at `now`.
pub open spec fn upsert_map(
    m: Map<Seq<char>, SessionRecordView>,
    o: ObservedSessionView,
    now: SystemTime,
) -> Map<Seq<char>, SessionRecordView> {
    m.insert(o.name, upserted_record(m.get(o.name), o, now))
}

pub open spec fn record_views(v: Seq<SessionRecord>) -> Seq<SessionRecordView> {
    v.map_values(|r: SessionRecord| r@)
}

pub open spec fn record_ref_views(v: Seq<&SessionRecord>) -> Seq<SessionRecordView> {
    v.map_values(|r: &SessionRecord| r@)
}

proof fn lemma_record_map_ext(s: Seq<SessionRecordView>, m: Map<Seq<char>, SessionRecordView>)
    requires
        names_sorted(s),
        forall|i: int| 0 <= i < s.len() ==> #[trigger] m.contains_key(s[i].name) && m[s[i].name] == s[i],
        forall|k: Seq<char>| #[trigger] m.contains_key(k) ==> exists|i: int| 0 <= i < s.len() && s[i].name == k,
    ensures
        record_map(s) == m,
{
    assert forall|k: Seq<char>| #[trigger] record_map(s).contains_key(k) == m.contains_key(k) by {
        lemma_record_map_keys(s, k);
        if m.contains_key(k) {
            let i = choose|i: int| 0 <= i < s.len() && s[i].name == k;
            assert(s[i].name == k);
        }
        if record_map(s).contains_key(k) {
            let i = choose|i: int| 0 <= i < s.len() && #[trigger] s[i].name == k;
            assert(m.contains_key(s[i].name));
        }
    }
    assert forall|k: Seq<char>| #[trigger] record_map(s).contains_key(k) implies record_map(s)[k] == m[k] by {
        lemma_record_map_keys(s, k);
        let i = choose|i: int| 0 <= i < s.len() && #[trigger] s[i].name == k;
        lemma_record_map_value(s, i);
        assert(m.contains_key(s[i].name));
    }
    assert(record_map(s) =~= m);
}

proof fn lemma_update_same_name(s: Seq<SessionRecordView>, i: int, r: SessionRecordView)
    requires
        names_sorted(s),
        0 <= i < s.len(),
        s[i].name == r.name,
    ensures
        names_sorted(s.update(i, r)),
        record_map(s.update(i, r)) == record_map(s).insert(r.name, r),
{
    let t = s.update(i, r);
    assert(names_sorted(t)) by {
        assert forall|a: int, b: int| 0 <= a < b < t.len() implies name_lt(#[trigger] t[a].name, #[trigger] t[b].name) by {
            assert(name_lt(s[a].name, s[b].name));
        }
    }
    let m = record_map(s).insert(r.name, r);
    assert forall|j: int| 0 <= j < t.len() implies #[trigger] m.contains_key(t[j].name) && m[t[j].name] == t[j] by {
        if j != i {
            lemma_record_map_value(s, j);
            if j < i {
                assert(name_lt(s[j].name, s[i].name));
            } else {
                assert(name_lt(s[i].name, s[j].name));
            }
            lemma_name_lt_irreflexive(r.name);
        }
    }
    assert forall|k: Seq<char>| #[trigger] m.contains_key(k) implies exists|j: int| 0 <= j < t.len() && t[j].name == k by {
        if k != r.name {
            lemma_record_map_keys(s, k);
            let j = choose|j: int| 0 <= j < s.len() && #[trigger] s[j].name == k;
            assert(t[j].name == k);
        } else {
            assert(t[i].name == k);
        }
    }
    lemma_record_map_ext(t, m);
}

/// Each record of `s` with `r` put in at `i`, where `r`'s name is new, is
/// filed under its name in the records of `s` with `r` added.
#[verifier::spinoff_prover]
proof fn lemma_insert_new_name_values(s: Seq<SessionRecordView>, i: int, r: SessionRecordView)
    requires
        names_sorted(s),
        0 <= i <= s.len(),
        forall|j: int| 0 <= j < i ==> name_lt(#[trigger] s[j].name, r.name),
        forall|j: int| i <= j < s.len() ==> name_lt(r.name, #[trigger] s[j].name),
    ensures
        forall|j: int|
            #![trigger s.insert(i, r)[j]]
            0 <= j < s.insert(i, r).len() ==> record_map(s).insert(r.name, r).contains_key(
                s.insert(i, r)[j].name,
            ) && record_map(s).insert(r.name, r)[s.insert(i, r)[j].name] == s.insert(i, r)[j],
{
    let t = s.insert(i, r);
    let m = record_map(s).insert(r.name, r);
    lemma_name_lt_irreflexive(r.name);
    assert forall|j: int|
        #![trigger t[j]]
        0 <= j < t.len() implies m.contains_key(t[j].name) && m[t[j].name] == t[j] by {
        if j == i {
            assert(t[j] == r);
        } else {
            let jj = if j < i { j } else { j - 1 };
            lemma_record_map_value(s, jj);
            assert(t[j] == s[jj]);
            lemma_name_lt_irreflexive(r.name);
            if j < i {
                assert(name_lt(s[jj].name, r.name));
            } else {
                assert(name_lt(r.name, s[jj].name));
            }
            assert(s[jj].name != r.name);
            assert(m[t[j].name] == record_map(s)[s[jj].name]);
        }
    }
}

#[verifier::spinoff_prover]
proof fn lemma_insert_new_name(s: Seq<SessionRecordView>, i: int, r: SessionRecordView)
    requires
        names_sorted(s),
        0 <= i <= s.len(),
        forall|j: int| 0 <= j < i ==> name_lt(#[trigger] s[j].name, r.name),
        forall|j: int| i <= j < s.len() ==> name_lt(r.name, #[trigger] s[j].name),
    ensures
        names_sorted(s.insert(i, r)),
        record_map(s.insert(i, r)) == record_map(s).insert(r.name, r),
{
    let t = s.insert(i, r);
    assert forall|j: int| 0 <= j < t.len() implies #[trigger] t[j] == (if j < i {
        s[j]
    } else if j == i {
        r
    } else {
        s[j - 1]
    }) by {}
    assert(names_sorted(t)) by {
        assert forall|a: int, b: int| 0 <= a < b < t.len() implies name_lt(#[trigger] t[a].name, #[trigger] t[b].name) by {
            if a < i && b < i {
                assert(name_lt(s[a].name, s[b].name));
            } else if a < i && b == i {
            } else if a < i {
                assert(name_lt(s[a].name, r.name));
                assert(name_lt(r.name, s[b - 1].name));
                lemma_name_lt_transitive(s[a].name, r.name, s[b - 1].name);
            } else if a == i {
                assert(name_lt(r.name, s[b - 1].name));
            } else {
                assert(name_lt(s[a - 1].name, s[b - 1].name));
            }
        }
    }
    let m = record_map(s).insert(r.name, r);
    lemma_insert_new_name_values(s, i, r);
    assert forall|k: Seq<char>| #[trigger] m.contains_key(k) implies exists|j: int| 0 <= j < t.len() && t[j].name == k by {
        if k != r.name {
            lemma_record_map_keys(s, k);
            let j = choose|j: int| 0 <= j < s.len() && #[trigger] s[j].name == k;
            if j < i {
                assert(t[j].name == k);
            } else {
                assert(t[j + 1].name == k);
            }
        } else {
            assert(t[i].name == k);
        }
    }
    lemma_record_map_ext(t, m);
}

/// The records `m` once the live sessions `obs` are recorded at `now`, one after
/// the other.
pub open spec fn upsert_all(
    m: Map<Seq<char>, SessionRecordView>,
    obs: Seq<ObservedSessionView>,
    now: SystemTime,
) -> Map<Seq<char>, SessionRecordView>
    decreases obs.len(),
{
    if obs.len() == 0 {
        m
    } else {
        upsert_map(upsert_all(m, obs.drop_last(), now), obs.last(), now)
    }
}

/// Some session of `obs` is named `name`.
pub open spec fn observed_name(obs: Seq<ObservedSessionView>, name: Seq<char>) -> bool {
    exists|i: int| 0 <= i < obs.len() && #[trigger] obs[i].name == name
}

/// The record `r` of the session `name` after a poll that saw the sessions
/// `obs`: dead where no session of `obs` has that name, and unchanged
/// otherwise.
pub open spec fn mark_missing(
    name: Seq<char>,
    r: SessionRecordView,
    obs: Seq<ObservedSessionView>,
) -> SessionRecordView {
    if observed_name(obs, name) {
        r
    } else {
        SessionRecordView { status: SessionStatus::Dead, ..r }
    }
}

/// The records `m` after a poll at `now` that saw the live sessions `obs`:
/// each of them recorded in turn, then every record whose session was not
/// seen marked dead, with all else it holds kept.
pub open spec fn reconcile_spec(
    m: Map<Seq<char>, SessionRecordView>,
    obs: Seq<ObservedSessionView>,
    now: SystemTime,
) -> Map<Seq<char>, SessionRecordView> {
    upsert_all(m, obs, now).map_entries(
        |name: Seq<char>, r: SessionRecordView| mark_missing(name, r, obs),
    )
}

/// The names of `observed`, in order.
fn names_of(observed: &Vec<ObservedSession>) -> (names: Vec<String>)
    ensures
        names@.len() == observed@.len(),
        forall|j: int| 0 <= j < names@.len() ==> #[trigger] names@[j]@ == observed@[j].name@,
{
    let mut names: Vec<String> = Vec::new();
    let mut k: usize = 0;
    while k < observed.len()
        invariant
            k <= observed@.len(),
            names@.len() == k,
            forall|j: int| 0 <= j < k ==> #[trigger] names@[j]@ == observed@[j].name@,
        decreases observed@.len() - k,
    {
        names.push(observed[k].name.clone());
        k += 1;
    }
    names
}

proof fn lemma_marked_map(mid: Seq<SessionRecordView>, fin: Seq<SessionRecordView>, obs: Seq<ObservedSessionView>)
    requires
        names_sorted(mid),
        accents_follow_names(mid),
        fin == mid.map_values(|r: SessionRecordView| mark_missing(r.name, r, obs)),
    ensures
        names_sorted(fin),
        accents_follow_names(fin),
        record_map(fin) == record_map(mid).map_entries(
            |name: Seq<char>, r: SessionRecordView| mark_missing(name, r, obs),
        ),
{
    assert(accents_follow_names(fin)) by {
        assert forall|a: int| 0 <= a < fin.len() implies (#[trigger] fin[a]).accent == accent_spec(fin[a].name) by {
            assert(mid[a].accent == accent_spec(mid[a].name));
        }
    }
    assert(names_sorted(fin)) by {
        assert forall|a: int, b: int| 0 <= a < b < fin.len() implies name_lt(#[trigger] fin[a].name, #[trigger] fin[b].name) by {
            assert(name_lt(mid[a].name, mid[b].name));
        }
    }
    let m = record_map(mid).map_entries(
        |name: Seq<char>, r: SessionRecordView| mark_missing(name, r, obs),
    );
    assert forall|p: int| 0 <= p < fin.len() implies #[trigger] m.contains_key(fin[p].name) && m[fin[p].name] == fin[p] by {
        lemma_record_map_value(mid, p);
    }
    assert forall|key: Seq<char>| #[trigger] m.contains_key(key) implies exists|p: int| 0 <= p < fin.len() && fin[p].name == key by {
        lemma_record_map_keys(mid, key);
        let p = choose|p: int| 0 <= p < mid.len() && #[trigger] mid[p].name == key;
        assert(fin[p].name == key);
    }
    lemma_record_map_ext(fin, m);
}

/// The sessions that tmux reported and that this dashboard has seen, one record
/// per name, kept in the order of their names.
#[derive(Debug)]
pub struct SessionStore {
    records: Vec<SessionRecord>,
}

impl View for SessionStore {
    type V = Map<Seq<char>, SessionRecordView>;

    /// The records by name.
    open spec fn view(&self) -> Map<Seq<char>, SessionRecordView> {
        record_map(self.records_view())
    }
}

impl Default for SessionStore {
    fn default() -> (s: Self)
        ensures
            s.wf(),
            s@ == Map::<Seq<char>, SessionRecordView>::empty(),
            s.records_view() == Seq::<SessionRecordView>::empty(),
    {
        let s = SessionStore { records: Vec::new() };
        assert(s.records_view() =~= Seq::<SessionRecordView>::empty());
        s
    }
}

impl SessionStore {
    /// The records in the order of their names.
    pub closed spec fn records_view(&self) -> Seq<SessionRecordView> {
        record_views(self.records@)
    }

    /// The store is well formed: its records are in strictly increasing order
    /// of name, so that each name has one record, and each has the colour of
    /// its name.
    pub closed spec fn wf(&self) -> bool {
        &&& names_sorted(self.records_view())
        &&& accents_follow_names(self.records_view())
    }

    /// The records of a well-formed store are in strictly increasing order of
    /// name, and they are the records by name.
    pub proof fn lemma_wf(&self)
        requires
            self.wf(),
        ensures
            names_sorted(self.records_view()),
            accents_follow_names(self.records_view()),
            forall|i: int| 0 <= i < self.records_view().len() ==> #[trigger] self@.contains_key(self.records_view()[i].name) && self@[self.records_view()[i].name] == self.records_view()[i],
            forall|k: Seq<char>| #[trigger] self@.contains_key(k) ==> exists|i: int| 0 <= i < self.records_view().len() && self.records_view()[i].name == k,
    {
        let s = self.records_view();
        assert forall|i: int| 0 <= i < s.len() implies #[trigger] self@.contains_key(s[i].name) && self@[s[i].name] == s[i] by {
            lemma_record_map_value(s, i);
        }
        assert forall|k: Seq<char>| #[trigger] self@.contains_key(k) implies exists|i: int| 0 <= i < s.len() && s[i].name == k by {
            lemma_record_map_keys(s, k);
        }
    }

    /// The position of `name` among the records: the first record whose name
    /// does not come before it, and whether that record is the one of `name`.
    fn locate(&self, name: &str) -> (r: (bool, usize))
        requires
            self.wf(),
        ensures
            r.1 <= self.records_view().len(),
            forall|j: int| 0 <= j < r.1 ==> name_lt(#[trigger] self.records_view()[j].name, name@),
            r.0 ==> r.1 < self.records_view().len() && self.records_view()[r.1 as int].name == name@,
            forall|j: int| r.1 <= j < self.records_view().len() && (j > r.1 || !r.0) ==> name_lt(name@, #[trigger] self.records_view()[j].name),
            r.0 == self@.contains_key(name@),
    {
        let ghost s = self.records_view();
        let mut i: usize = 0;
        while i < self.records.len()
            invariant
                s == self.records_view(),
                names_sorted(s),
                i <= s.len(),
                forall|j: int| 0 <= j < i ==> name_lt(#[trigger] s[j].name, name@),
            decreases s.len() - i,
        {
            let o = compare_names(self.records[i].name.as_str(), name);
            assert(self.records@[i as int]@ == s[i as int]);
            if o != NameOrder::Before {
                proof {
                    lemma_record_map_keys(s, name@);
                    lemma_name_lt_total(s[i as int].name, name@);
                    assert forall|j: int| i <= j < s.len() && (j > i || o != NameOrder::Same) implies name_lt(name@, #[trigger] s[j].name) by {
                        if j > i {
                            assert(name_lt(s[i as int].name, s[j].name));
                            if o == NameOrder::After {
                                lemma_name_lt_transitive(name@, s[i as int].name, s[j].name);
                            }
                        }
                    }
                    if !(o == NameOrder::Same) {
                        assert forall|j: int| 0 <= j < s.len() implies #[trigger] s[j].name != name@ by {
                            if j < i {
                                lemma_name_lt_irreflexive(name@);
                            } else {
                                lemma_name_lt_irreflexive(name@);
                            }
                        }
                    }
                }
                return (o == NameOrder::Same, i);
            }
            i += 1;
        }
        proof {
            lemma_record_map_keys(s, name@);
            assert forall|j: int| 0 <= j < s.len() implies #[trigger] s[j].name != name@ by {
                lemma_name_lt_irreflexive(name@);
            }
        }
        (false, i)
    }

    /// The record of the session `name`, if there is one.
    pub fn get(&self, name: &str) -> (r: Option<&SessionRecord>)
        requires
            self.wf(),
        ensures
            match r {
                Some(rec) => self@.contains_key(name@) && rec@ == self@[name@],
                None => !self@.contains_key(name@),
            },
    {
        let (found, i) = self.locate(name);
        if found {
            proof {
                lemma_record_map_value(self.records_view(), i as int);
            }
            assert(self.records@[i as int]@ == self.records_view()[i as int]);
            Some(&self.records[i])
        } else {
            None
        }
    }

    /// Whether the session `name` has a record and tmux still reports it.
    pub fn is_live(&self, name: &str) -> (b: bool)
        requires
            self.wf(),
        ensures
            b == (self@.contains_key(name@) && self@[name@].status == SessionStatus::Live),
    {
        match self.get(name) {
            Some(record) => record.is_live(),
            None => false,
        }
    }

    /// Hides the record of the session `name`, if there is one.
    pub fn hide_record(&mut self, name: &str)
        requires
            old(self).wf(),
        ensures
            final(self).wf(),
            final(self)@ == if old(self)@.contains_key(name@) {
                old(self)@.insert(name@, SessionRecordView { hidden: true, ..old(self)@[name@] })
            } else {
                old(self)@
            },
    {
        let (found, i) = self.locate(name);
        if found {
            let ghost s = self.records_view();
            proof {
                lemma_record_map_value(s, i as int);
            }
            let mut record = self.records.remove(i);
            record.hidden = true;
            self.records.insert(i, record);
            proof {
                assert(self.records_view() =~= s.update(i as int, record@));
                lemma_update_same_name(s, i as int, record@);
            }
        }
    }

    /// Records the live session `session`, seen at `now`: its record is
    /// created, or brought back to life and shown again, with the latest
    /// capture where it succeeded, and with the capture's error marking the
    /// snapshot kept as stale where it failed.
    pub fn upsert_live(&mut self, session: ObservedSession, now: SystemTime)
        requires
            old(self).wf(),
        ensures
            final(self).wf(),
            final(self)@ == upsert_map(old(self)@, session@, now),
    {
        let ghost s = self.records_view();
        let ghost o = session@;
        let accent = accent_for_name(session.name.as_str());
        let (found, i) = self.locate(session.name.as_str());
        let ObservedSession { name, active_pane_id, pane_size: _, capture } = session;
        let previous = if found {
            proof {
                lemma_record_map_value(s, i as int);
            }
            let old_record = self.records.remove(i);
            assert(old_record@ == s[i as int]);
            Some(old_record.snapshot)
        } else {
            None
        };
        let (snapshot, stale_reason) = match capture {
            Ok(snapshot) => (snapshot, None),
            Err(error) => match previous {
                Some(kept) => (kept, Some(error)),
                None => (fallback_snapshot(), Some(error)),
            },
        };
        let record = SessionRecord {
            name,
            active_pane_id,
            status: SessionStatus::Live,
            last_seen: now,
            snapshot,
            hidden: false,
            accent,
            stale_reason,
        };
        assert(record@ == upserted_record(record_map(s).get(o.name), o, now));
        self.records.insert(i, record);
        proof {
            if found {
                assert(self.records_view() =~= s.update(i as int, record@));
                lemma_update_same_name(s, i as int, record@);
            } else {
                assert(self.records_view() =~= s.insert(i as int, record@));
                lemma_insert_new_name(s, i as int, record@);
            }
        }
    }

    /// Records the sessions of a poll at `now`: each observed session is
    /// recorded as live, in turn, and the record of every session that the
    /// poll did not see is marked dead, with its last snapshot kept.
    pub fn reconcile(&mut self, observed: Vec<ObservedSession>, now: SystemTime)
        requires
            old(self).wf(),
        ensures
            final(self).wf(),
            final(self)@ == reconcile_spec(old(self)@, observed_views(observed@), now),
    {
        let ghost obs = observed_views(observed@);
        let live_names = names_of(&observed);
        self.upsert_each(observed, now);
        self.mark_unseen_dead(&live_names, Ghost(obs));
    }

    /// Records the sessions `observed` as live at `now`, one after the other.
    fn upsert_each(&mut self, observed: Vec<ObservedSession>, now: SystemTime)
        requires
            old(self).wf(),
        ensures
            final(self).wf(),
            final(self)@ == upsert_all(old(self)@, observed_views(observed@), now),
    {
        let ghost obs = observed_views(observed@);
        let ghost m0 = self@;
        let mut rest = observed;
        let mut pending: Vec<ObservedSession> = Vec::new();
        let n = rest.len();
        while rest.len() > 0
            invariant
                n == obs.len(),
                rest@.len() + pending@.len() == n,
                forall|j: int| 0 <= j < rest@.len() ==> #[trigger] rest@[j]@ == obs[j],
                forall|j: int| 0 <= j < pending@.len() ==> #[trigger] pending@[j]@ == obs[n - 1 - j],
            decreases rest@.len(),
        {
            let session = rest.pop().unwrap();
            pending.push(session);
        }
        let mut i: usize = 0;
        while i < n
            invariant
                n == obs.len(),
                pending@.len() == n - i,
                forall|j: int| 0 <= j < pending@.len() ==> #[trigger] pending@[j]@ == obs[n - 1 - j],
                self.wf(),
                self@ == upsert_all(m0, obs.take(i as int), now),
            decreases n - i,
        {
            let session = pending.pop().unwrap();
            assert(session@ == obs[i as int]);
            assert(obs.take(i + 1).drop_last() =~= obs.take(i as int));
            self.upsert_live(session, now);
            i += 1;
        }
        assert(obs.take(n as int) =~= obs);
    }

    /// Whether some name of `live_names` is the name of record `j`.
    fn record_is_seen(&self, j: usize, live_names: &Vec<String>, Ghost(obs): Ghost<Seq<ObservedSessionView>>) -> (seen: bool)
        requires
            j < self.records@.len(),
            live_names@.len() == obs.len(),
            forall|q: int| 0 <= q < live_names@.len() ==> #[trigger] live_names@[q]@ == obs[q].name,
        ensures
            seen == observed_name(obs, self.records@[j as int].name@),
    {
        let mut q: usize = 0;
        while q < live_names.len()
            invariant
                j < self.records@.len(),
                live_names@.len() == obs.len(),
                forall|p: int| 0 <= p < live_names@.len() ==> #[trigger] live_names@[p]@ == obs[p].name,
                q <= live_names@.len(),
                forall|p: int| 0 <= p < q ==> #[trigger] obs[p].name != self.records@[j as int].name@,
            decreases live_names@.len() - q,
        {
            if live_names[q] == self.records[j].name {
                assert(obs[q as int].name == self.records@[j as int].name@);
                return true;
            }
            q += 1;
        }
        false
    }

    /// Marks dead every record whose name no session of `obs` has.
    fn mark_unseen_dead(&mut self, live_names: &Vec<String>, Ghost(obs): Ghost<Seq<ObservedSessionView>>)
        requires
            old(self).wf(),
            live_names@.len() == obs.len(),
            forall|q: int| 0 <= q < live_names@.len() ==> #[trigger] live_names@[q]@ == obs[q].name,
        ensures
            final(self).wf(),
            final(self)@ == old(self)@.map_entries(
                |name: Seq<char>, r: SessionRecordView| mark_missing(name, r, obs),
            ),
    {
        let ghost mid = self.records_view();
        proof {
            self.lemma_wf();
        }
        let mut j: usize = 0;
        while j < self.records.len()
            invariant
                live_names@.len() == obs.len(),
                forall|q: int| 0 <= q < live_names@.len() ==> #[trigger] live_names@[q]@ == obs[q].name,
                mid.len() == self.records_view().len(),
                names_sorted(mid),
                accents_follow_names(mid),
                j <= mid.len(),
                forall|q: int| 0 <= q < j ==> #[trigger] self.records_view()[q] == mark_missing(mid[q].name, mid[q], obs),
                forall|q: int| j <= q < mid.len() ==> #[trigger] self.records_view()[q] == mid[q],
            decreases mid.len() - j,
        {
            let ghost rv = self.records_view();
            assert(rv[j as int] == mid[j as int]);
            assert(self.records@[j as int]@ == rv[j as int]);
            let seen = self.record_is_seen(j, live_names, Ghost(obs));
            if !seen {
                let mut record = self.records.remove(j);
                record.status = SessionStatus::Dead;
                self.records.insert(j, record);
                assert(self.records_view() =~= rv.update(j as int, record@));
            }
            j += 1;
        }
        let ghost fin = self.records_view();
        assert(fin =~= mid.map_values(|r: SessionRecordView| mark_missing(r.name, r, obs)));
        proof {
            lemma_marked_map(mid, fin, obs);
        }
    }

    /// The records that are not hidden, in the order of their names.
    pub fn visible_records(&self) -> (v: Vec<&SessionRecord>)
        requires
            self.wf(),
        ensures
            record_ref_views(v@) == visible_of(self.records_view()),
    {
        let ghost s = self.records_view();
        let mut v: Vec<&SessionRecord> = Vec::new();
        let mut i: usize = 0;
        while i < self.records.len()
            invariant
                s == self.records_view(),
                i <= s.len(),
                record_ref_views(v@) == visible_of(s.take(i as int)),
            decreases s.len() - i,
        {
            let ghost before = record_ref_views(v@);
            assert(s.take(i + 1).drop_last() =~= s.take(i as int));
            assert(s.take(i + 1).last() == self.records@[i as int]@);
            if !self.records[i].hidden {
                v.push(&self.records[i]);
                assert(record_ref_views(v@) =~= before.push(self.records@[i as int]@));
            }
            i += 1;
        }
        assert(s.take(i as int) =~= s);
        v
    }
}

proof fn lemma_upsert_all_unobserved(
    m: Map<Seq<char>, SessionRecordView>,
    obs: Seq<ObservedSessionView>,
    now: SystemTime,
    k: Seq<char>,
)
    requires
        !observed_name(obs, k),
    ensures
        upsert_all(m, obs, now).get(k) == m.get(k),
    decreases obs.len(),
{
    if obs.len() > 0 {
        assert(!observed_name(obs.drop_last(), k)) by {
            if observed_name(obs.drop_last(), k) {
                let i = choose|i: int| 0 <= i < obs.drop_last().len() && #[trigger] obs.drop_last()[i].name == k;
                assert(obs[i].name == k);
            }
        }
        assert(obs[obs.len() - 1].name != k);
        lemma_upsert_all_unobserved(m, obs.drop_last(), now, k);
    }
}

proof fn lemma_upsert_all_observed(
    m: Map<Seq<char>, SessionRecordView>,
    obs: Seq<ObservedSessionView>,
    now: SystemTime,
    k: Seq<char>,
)
    requires
        observed_name(obs, k),
    ensures
        upsert_all(m, obs, now).contains_key(k),
        upsert_all(m, obs, now)[k].name == k,
        upsert_all(m, obs, now)[k].status == SessionStatus::Live,
        !upsert_all(m, obs, now)[k].hidden,
        upsert_all(m, obs, now)[k].accent == accent_spec(k),
    decreases obs.len(),
{
    if obs.last().name != k {
        assert(observed_name(obs.drop_last(), k)) by {
            let i = choose|i: int| 0 <= i < obs.len() && #[trigger] obs[i].name == k;
            assert(i != obs.len() - 1);
            assert(obs.drop_last()[i].name == k);
        }
        lemma_upsert_all_observed(m, obs.drop_last(), now, k);
    }
}

/// A poll loses no record: afterwards there are records for exactly the
/// sessions recorded before and the sessions that the poll saw.
pub proof fn law_reconcile_keeps_records(
    m: Map<Seq<char>, SessionRecordView>,
    obs: Seq<ObservedSessionView>,
    now: SystemTime,
    k: Seq<char>,
)
    ensures
        reconcile_spec(m, obs, now).contains_key(k) <==> (m.contains_key(k) || observed_name(
            obs,
            k,
        )),
{
    if observed_name(obs, k) {
        lemma_upsert_all_observed(m, obs, now, k);
    } else {
        lemma_upsert_all_unobserved(m, obs, now, k);
    }
}

/// A session that a poll does not see stays, dead, with all else of its
/// record (its last snapshot among it) as it was.
pub proof fn law_reconcile_marks_missing_dead(
    m: Map<Seq<char>, SessionRecordView>,
    obs: Seq<ObservedSessionView>,
    now: SystemTime,
    k: Seq<char>,
)
    requires
        m.contains_key(k),
        !observed_name(obs, k),
    ensures
        reconcile_spec(m, obs, now).contains_key(k),
        reconcile_spec(m, obs, now)[k] == (SessionRecordView {
            status: SessionStatus::Dead,
            ..m[k]
        }),
{
    lemma_upsert_all_unobserved(m, obs, now, k);
}

/// A session that a poll sees is live and shown, under its own name and
/// colour, whether it was dead or hidden before or new.
pub proof fn law_reconcile_revives_seen(
    m: Map<Seq<char>, SessionRecordView>,
    obs: Seq<ObservedSessionView>,
    now: SystemTime,
    k: Seq<char>,
)
    requires
        observed_name(obs, k),
    ensures
        reconcile_spec(m, obs, now).contains_key(k),
        reconcile_spec(m, obs, now)[k].name == k,
        reconcile_spec(m, obs, now)[k].status == SessionStatus::Live,
        !reconcile_spec(m, obs, now)[k].hidden,
        reconcile_spec(m, obs, now)[k].accent == accent_spec(k),
        reconcile_spec(m, obs, now)[k].last_seen == now,
{
    lemma_upsert_all_observed(m, obs, now, k);
    lemma_upsert_all_last_seen(m, obs, now, k);
}

proof fn lemma_upsert_all_last_seen(
    m: Map<Seq<char>, SessionRecordView>,
    obs: Seq<ObservedSessionView>,
    now: SystemTime,
    k: Seq<char>,
)
    requires
        observed_name(obs, k),
    ensures
        upsert_all(m, obs, now)[k].last_seen == now,
    decreases obs.len(),
{
    if obs.last().name != k {
        assert(observed_name(obs.drop_last(), k)) by {
            let i = choose|i: int| 0 <= i < obs.len() && #[trigger] obs[i].name == k;
            assert(i != obs.len() - 1);
            assert(obs.drop_last()[i].name == k);
        }
        lemma_upsert_all_last_seen(m, obs.drop_last(), now, k);
    }
}

/// The names of `obs` are all different, as tmux's session names are.
pub open spec fn distinct_names(obs: Seq<ObservedSessionView>) -> bool {
    forall|i: int, j: int| 0 <= i < j < obs.len() ==> #[trigger] obs[i].name != #[trigger] obs[j].name
}

/// Where a poll sees each session once, the record of each seen session is
/// the one that session makes of its previous record: the new capture where it
/// succeeded; otherwise the previous snapshot (or the placeholder), marked
/// stale with the capture's error.
pub proof fn law_reconcile_records_each_seen(
    m: Map<Seq<char>, SessionRecordView>,
    obs: Seq<ObservedSessionView>,
    now: SystemTime,
    i: int,
)
    requires
        distinct_names(obs),
        0 <= i < obs.len(),
    ensures
        reconcile_spec(m, obs, now).contains_key(obs[i].name),
        reconcile_spec(m, obs, now)[obs[i].name] == upserted_record(m.get(obs[i].name), obs[i], now),
    decreases obs.len(),
{
    let k = obs[i].name;
    assert(observed_name(obs, k));
    lemma_upsert_all_observed(m, obs, now, k);
    lemma_upsert_all_value(m, obs, now, i);
}

proof fn lemma_upsert_all_value(
    m: Map<Seq<char>, SessionRecordView>,
    obs: Seq<ObservedSessionView>,
    now: SystemTime,
    i: int,
)
    requires
        distinct_names(obs),
        0 <= i < obs.len(),
    ensures
        upsert_all(m, obs, now)[obs[i].name] == upserted_record(m.get(obs[i].name), obs[i], now),
    decreases obs.len(),
{
    let k = obs[i].name;
    let t = obs.drop_last();
    if i == obs.len() - 1 {
        assert(!observed_name(t, k)) by {
            if observed_name(t, k) {
                let j = choose|j: int| 0 <= j < t.len() && #[trigger] t[j].name == k;
                assert(obs[j].name == obs[i].name);
            }
        }
        lemma_upsert_all_unobserved(m, t, now, k);
    } else {
        assert(obs.last().name != k);
        assert(distinct_names(t)) by {
            assert forall|a: int, b: int| 0 <= a < b < t.len() implies #[trigger] t[a].name != #[trigger] t[b].name by {
                assert(obs[a].name != obs[b].name);
            }
        }
        assert(t[i] == obs[i]);
        lemma_upsert_all_value(m, t, now, i);
    }
}

/// A poll never hides a tile: a record hidden after it was hidden before.
pub proof fn law_reconcile_never_hides(
    m: Map<Seq<char>, SessionRecordView>,
    obs: Seq<ObservedSessionView>,
    now: SystemTime,
    k: Seq<char>,
)
    requires
        reconcile_spec(m, obs, now).contains_key(k),
        reconcile_spec(m, obs, now)[k].hidden,
    ensures
        m.contains_key(k),
        m[k].hidden,
{
    law_reconcile_keeps_records(m, obs, now, k);
    if observed_name(obs, k) {
        law_reconcile_revives_seen(m, obs, now, k);
    } else {
        law_reconcile_marks_missing_dead(m, obs, now, k);
    }
}

/// The tiles of a well-formed store come in strictly increasing order of
/// name: one tile per session.
pub proof fn law_visible_in_name_order(store: &SessionStore, i: int, j: int)
    requires
        store.wf(),
        0 <= i < j < visible_of(store.records_view()).len(),
    ensures
        name_lt(visible_of(store.records_view())[i].name, visible_of(store.records_view())[j].name),
        visible_of(store.records_view())[i].name != visible_of(store.records_view())[j].name,
{
    store.lemma_wf();
    lemma_visible_sorted(store.records_view());
    lemma_name_lt_irreflexive(visible_of(store.records_view())[i].name);
}

pub proof fn lemma_visible_sorted(s: Seq<SessionRecordView>)
    requires
        names_sorted(s),
    ensures
        names_sorted(visible_of(s)),
        forall|i: int| 0 <= i < visible_of(s).len() ==> exists|j: int| 0 <= j < s.len() && #[trigger] visible_of(s)[i] == s[j],
    decreases s.len(),
{
    if s.len() > 0 {
        let t = s.drop_last();
        assert(names_sorted(t)) by {
            assert forall|a: int, b: int| 0 <= a < b < t.len() implies name_lt(#[trigger] t[a].name, #[trigger] t[b].name) by {
                assert(t[a] == s[a] && t[b] == s[b]);
            }
        }
        lemma_visible_sorted(t);
        let v = visible_of(s);
        let vt = visible_of(t);
        assert forall|i: int| 0 <= i < v.len() implies exists|j: int| 0 <= j < s.len() && #[trigger] v[i] == s[j] by {
            if i < vt.len() {
                let j = choose|j: int| 0 <= j < t.len() && #[trigger] vt[i] == t[j];
                assert(v[i] == s[j]);
            } else {
                assert(v[i] == s[s.len() - 1]);
            }
        }
        if !s.last().hidden {
            assert forall|a: int, b: int| 0 <= a < b < v.len() implies name_lt(#[trigger] v[a].name, #[trigger] v[b].name) by {
                if b < vt.len() {
                } else {
                    let j = choose|j: int| 0 <= j < t.len() && #[trigger] vt[a] == t[j];
                    assert(name_lt(s[j].name, s[s.len() - 1].name));
                }
            }
        }
    }
}

/// In a well-formed store each record is filed under its own name and has
/// the colour that its name selects, whatever happened to it.
pub proof fn law_store_records_keep_name_and_colour(store: &SessionStore, k: Seq<char>)
    requires
        store.wf(),
        store@.contains_key(k),
    ensures
        store@[k].name == k,
        store@[k].accent == accent_spec(k),
{
    store.lemma_wf();
    let i = choose|i: int| 0 <= i < store.records_view().len() && store.records_view()[i].name == k;
    assert(store@[store.records_view()[i].name] == store.records_view()[i]);
}

/// Every record of `s` that is not hidden is among the visible ones.
pub proof fn lemma_unhidden_visible(s: Seq<SessionRecordView>, j: int)
    requires
        0 <= j < s.len(),
        !s[j].hidden,
    ensures
        exists|i: int| 0 <= i < visible_of(s).len() && #[trigger] visible_of(s)[i] == s[j],
    decreases s.len(),
{
    let t = s.drop_last();
    if j == s.len() - 1 {
        assert(visible_of(s)[visible_of(t).len() as int] == s[j]);
    } else {
        assert(t[j] == s[j]);
        lemma_unhidden_visible(t, j);
        let i = choose|i: int| 0 <= i < visible_of(t).len() && #[trigger] visible_of(t)[i] == t[j];
        assert(visible_of(s)[i] == visible_of(t)[i]);
    }
}

/// The order of names is the order of strings: `a` comes before `b` exactly
/// when `a` is a proper prefix of `b`, or where the two first differ, `a`'s
/// character is the smaller.
pub proof fn law_name_order_is_string_order(a: Seq<char>, b: Seq<char>)
    ensures
        name_lt(a, b) <==> (a.len() < b.len() && b.subrange(0, a.len() as int) == a) || exists|i: int|
            0 <= i < a.len() && i < b.len() && a.subrange(0, i) == b.subrange(0, i) && #[trigger] a[i]
                < b[i],
    decreases a.len(),
{
    let prefix = a.len() < b.len() && b.subrange(0, a.len() as int) == a;
    let differs = exists|i: int|
        0 <= i < a.len() && i < b.len() && a.subrange(0, i) == b.subrange(0, i) && #[trigger] a[i]
            < b[i];
    if a.len() == 0 {
        assert(b.len() > 0 ==> b.subrange(0, 0) =~= a);
    } else if b.len() == 0 {
    } else if a[0] != b[0] {
        if a[0] < b[0] {
            assert(a.subrange(0, 0) =~= b.subrange(0, 0));
            assert(a[0] < b[0]);
        } else {
            if prefix {
                assert(b.subrange(0, a.len() as int)[0] == a[0]);
            }
            if differs {
                let i = choose|i: int|
                    0 <= i < a.len() && i < b.len() && a.subrange(0, i) == b.subrange(0, i)
                        && #[trigger] a[i] < b[i];
                if i > 0 {
                    assert(a.subrange(0, i)[0] == b.subrange(0, i)[0]);
                }
            }
        }
    } else {
        let ta = a.drop_first();
        let tb = b.drop_first();
        law_name_order_is_string_order(ta, tb);
        // a proper prefix of b, exactly when the tails are
        if prefix {
            assert(tb.subrange(0, ta.len() as int) =~= b.subrange(0, a.len() as int).drop_first());
        }
        if ta.len() < tb.len() && tb.subrange(0, ta.len() as int) == ta {
            assert(b.subrange(0, a.len() as int) =~= seq![b[0]] + tb.subrange(0, ta.len() as int));
            assert(a =~= seq![a[0]] + ta);
        }
        // a first difference of a and b, exactly when one of the tails
        if differs {
            let i = choose|i: int|
                0 <= i < a.len() && i < b.len() && a.subrange(0, i) == b.subrange(0, i)
                    && #[trigger] a[i] < b[i];
            assert(i > 0);
            assert(ta.subrange(0, i - 1) =~= a.subrange(0, i).drop_first());
            assert(tb.subrange(0, i - 1) =~= b.subrange(0, i).drop_first());
            assert(ta[i - 1] == a[i] && tb[i - 1] == b[i]);
        }
        if exists|j: int|
            0 <= j < ta.len() && j < tb.len() && ta.subrange(0, j) == tb.subrange(0, j)
                && #[trigger] ta[j] < tb[j] {
            let j = choose|j: int|
                0 <= j < ta.len() && j < tb.len() && ta.subrange(0, j) == tb.subrange(0, j)
                    && #[trigger] ta[j] < tb[j];
            assert(a.subrange(0, j + 1) =~= seq![a[0]] + ta.subrange(0, j));
            assert(b.subrange(0, j + 1) =~= seq![b[0]] + tb.subrange(0, j));
            assert(a[j + 1] == ta[j] && b[j + 1] == tb[j]);
        }
    }
}

/// A name comes before every longer name that it begins.
pub proof fn law_prefix_comes_first(a: Seq<char>, s: Seq<char>)
    requires
        s.len() > 0,
    ensures
        name_lt(a, a + s),
        !name_lt(a + s, a),
{
    law_name_order_is_string_order(a, a + s);
    assert((a + s).subrange(0, a.len() as int) =~= a);
    law_name_order_is_string_order(a + s, a);
    if exists|i: int|
        0 <= i < (a + s).len() && i < a.len() && (a + s).subrange(0, i) == a.subrange(0, i)
            && #[trigger] (a + s)[i] < a[i] {
        let i = choose|i: int|
            0 <= i < (a + s).len() && i < a.len() && (a + s).subrange(0, i) == a.subrange(0, i)
                && #[trigger] (a + s)[i] < a[i];
        assert((a + s)[i] == a[i]);
    }
}

} // verus!
