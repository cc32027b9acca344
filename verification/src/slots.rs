//! Per-scope build slots.
//!
//! Each (team, scope) has [`SLOTS_PER_SCOPE`] workspace directories. A user
//! is hashed to a preferred slot, so that repeated builds from the same user
//! land in the same slot and cargo's incremental state stays warm; when that
//! slot is busy the user gets the first free one, and when none is free the
//! request is turned away. A released slot is free again.
//!
//! Each slot also remembers the fingerprint of the source tree last synced
//! into it, so that a client whose tree has that fingerprint can skip the
//! sync.
use vstd::prelude::*;
use vstd::string::*;
use vstd::utf8::encode_utf8;
use crate::text::{chars_of, copy_string, push_chars, same_text, string_of};

verus! {

/// Number of parallel workspaces kept per (team, scope).
pub const SLOTS_PER_SCOPE: usize = 4;

/// FNV-1a (64 bit) of a byte string.
pub open spec fn fnv1a(bytes: Seq<u8>) -> u64
    decreases bytes.len(),
{
    if bytes.len() == 0 {
        14695981039346656037u64
    } else {
        (fnv1a(bytes.drop_last()) ^ (bytes.last() as u64)).wrapping_mul(1099511628211u64)
    }
}

/// The slot a user prefers: FNV-1a of the login's UTF-8 bytes, modulo the
/// number of slots (stable across restarts, unlike a per-process seeded hash).
pub open spec fn preferred_slot(login: Seq<char>) -> int {
    (fnv1a(encode_utf8(login)) % (SLOTS_PER_SCOPE as u64)) as int
}

/// The preferred slot of a user.
pub fn slot_for_user(login: &str) -> (r: usize)
    ensures
        r == preferred_slot(login@),
        r < SLOTS_PER_SCOPE,
{
    let b = login.as_bytes();
    let mut h: u64 = 14695981039346656037u64;
    let mut i: usize = 0;
    while i < b.len()
        invariant
            0 <= i <= b@.len(),
            b@ == encode_utf8(login@),
            h == fnv1a(b@.take(i as int)),
        decreases b.len() - i,
    {
        assert(b@.take(i + 1).drop_last() =~= b@.take(i as int));
        h = (h ^ (b[i] as u64)).wrapping_mul(1099511628211u64);
        i = i + 1;
    }
    assert(b@.take(b@.len() as int) =~= b@);
    (h % (SLOTS_PER_SCOPE as u64)) as usize
}

/// The busy flags of the slots of one (team, scope).
pub struct ScopeSlots {
    pub team: String,
    pub scope: String,
    pub busy: [bool; 4],
}

/// Mathematical view of [`ScopeSlots`].
pub struct ScopeSlotsV {
    pub team: Seq<char>,
    pub scope: Seq<char>,
    pub busy: Seq<bool>,
}

impl View for ScopeSlots {
    type V = ScopeSlotsV;

    open spec fn view(&self) -> ScopeSlotsV {
        ScopeSlotsV { team: self.team@, scope: self.scope@, busy: self.busy@ }
    }
}

/// All slots free.
pub open spec fn all_free() -> Seq<bool> {
    seq![false, false, false, false]
}

/// The busy flags of (team, scope): those of its first entry, or all free
/// when it has none.
pub open spec fn occupancy(entries: Seq<ScopeSlotsV>, team: Seq<char>, scope: Seq<char>) -> Seq<bool>
    decreases entries.len(),
{
    if entries.len() == 0 {
        all_free()
    } else if entries[0].team == team && entries[0].scope == scope {
        entries[0].busy
    } else {
        occupancy(entries.drop_first(), team, scope)
    }
}

/// The slot given to a user who prefers `preferred`: that one when it is
/// free, else the first free slot, else none.
pub open spec fn chosen_slot(busy: Seq<bool>, preferred: int) -> Option<int> {
    if !busy[preferred] {
        Some(preferred)
    } else if !busy[0] {
        Some(0)
    } else if !busy[1] {
        Some(1)
    } else if !busy[2] {
        Some(2)
    } else if !busy[3] {
        Some(3)
    } else {
        None
    }
}

/// The build slots of every (team, scope) seen so far.
pub struct SlotTable {
    entries: Vec<ScopeSlots>,
}

/// A slot held for one build.
pub struct SlotGuard {
    pub team: String,
    pub scope: String,
    pub index: usize,
}

impl View for SlotTable {
    type V = Seq<ScopeSlotsV>;

    closed spec fn view(&self) -> Seq<ScopeSlotsV> {
        self.entries@.map_values(|e: ScopeSlots| e@)
    }
}

/// Whether two tables agree on every (team, scope) but one.
pub open spec fn same_elsewhere(a: Seq<ScopeSlotsV>, b: Seq<ScopeSlotsV>, team: Seq<char>, scope: Seq<char>) -> bool {
    forall|t: Seq<char>, s: Seq<char>| !(t == team && s == scope) ==> #[trigger] occupancy(a, t, s) == occupancy(b, t, s)
}

proof fn lemma_occupancy_index(entries: Seq<ScopeSlotsV>, team: Seq<char>, scope: Seq<char>, k: int)
    requires
        0 <= k <= entries.len(),
        forall|j: int| 0 <= j < k ==> !((#[trigger] entries[j]).team == team && entries[j].scope == scope),
        k < entries.len() ==> entries[k].team == team && entries[k].scope == scope,
    ensures
        occupancy(entries, team, scope) == if k < entries.len() {
            entries[k].busy
        } else {
            all_free()
        },
    decreases entries.len(),
{
    if entries.len() > 0 && k > 0 {
        assert(!(entries[0].team == team && entries[0].scope == scope));
        assert forall|j: int| 0 <= j < k - 1 implies !((#[trigger] entries.drop_first()[j]).team == team
            && entries.drop_first()[j].scope == scope) by {
            assert(entries.drop_first()[j] == entries[j + 1]);
        }
        lemma_occupancy_index(entries.drop_first(), team, scope, k - 1);
    }
}

/// Replacing the busy flags of the first entry of (team, scope) at index `k`
/// changes the occupancy of that pair only.
proof fn lemma_occupancy_update(entries: Seq<ScopeSlotsV>, k: int, busy: Seq<bool>)
    requires
        0 <= k < entries.len(),
        forall|j: int| 0 <= j < k ==> !((#[trigger] entries[j]).team == entries[k].team && entries[j].scope == entries[k].scope),
    ensures
        occupancy(entries.update(k, ScopeSlotsV { busy, ..entries[k] }), entries[k].team, entries[k].scope) == busy,
        same_elsewhere(entries, entries.update(k, ScopeSlotsV { busy, ..entries[k] }), entries[k].team, entries[k].scope),
    decreases entries.len(),
{
    let e2 = entries.update(k, ScopeSlotsV { busy, ..entries[k] });
    let kt = entries[k].team;
    let ks = entries[k].scope;
    if k == 0 {
        assert(e2.drop_first() =~= entries.drop_first());
        assert forall|t: Seq<char>, s: Seq<char>| !(t == kt && s == ks) implies #[trigger] occupancy(entries, t, s)
            == occupancy(e2, t, s) by {
        }
    } else {
        assert(!(entries[0].team == entries[k].team && entries[0].scope == entries[k].scope));
        assert forall|j: int| 0 <= j < k - 1 implies !((#[trigger] entries.drop_first()[j]).team == entries.drop_first()[k - 1].team
            && entries.drop_first()[j].scope == entries.drop_first()[k - 1].scope) by {
            assert(entries.drop_first()[j] == entries[j + 1]);
        }
        lemma_occupancy_update(entries.drop_first(), k - 1, busy);
        assert(e2.drop_first() =~= entries.drop_first().update(k - 1, ScopeSlotsV { busy, ..entries[k] }));
        assert(e2[0] == entries[0]);
        assert forall|t: Seq<char>, s: Seq<char>| !(t == kt && s == ks) implies #[trigger] occupancy(entries, t, s)
            == occupancy(e2, t, s) by {
            assert(occupancy(entries.drop_first(), t, s) == occupancy(e2.drop_first(), t, s));
        }
    }
}

/// Appending an entry for a pair that has none gives it those flags and
/// changes nothing else.
proof fn lemma_occupancy_push(entries: Seq<ScopeSlotsV>, e: ScopeSlotsV)
    requires
        occupancy(entries, e.team, e.scope) == all_free(),
        forall|j: int| 0 <= j < entries.len() ==> !((#[trigger] entries[j]).team == e.team && entries[j].scope == e.scope),
    ensures
        occupancy(entries.push(e), e.team, e.scope) == e.busy,
        same_elsewhere(entries, entries.push(e), e.team, e.scope),
    decreases entries.len(),
{
    if entries.len() > 0 {
        assert forall|j: int| 0 <= j < entries.drop_first().len() implies !((#[trigger] entries.drop_first()[j]).team == e.team
            && entries.drop_first()[j].scope == e.scope) by {
            assert(entries.drop_first()[j] == entries[j + 1]);
        }
        lemma_occupancy_push(entries.drop_first(), e);
        assert(entries.push(e).drop_first() =~= entries.drop_first().push(e));
        assert(entries.push(e)[0] == entries[0]);
        assert forall|t: Seq<char>, s: Seq<char>| !(t == e.team && s == e.scope) implies #[trigger] occupancy(entries, t, s)
            == occupancy(entries.push(e), t, s) by {
            assert(occupancy(entries.drop_first(), t, s) == occupancy(entries.push(e).drop_first(), t, s));
        }
    } else {
        assert forall|t: Seq<char>, s: Seq<char>| !(t == e.team && s == e.scope) implies #[trigger] occupancy(entries, t, s)
            == occupancy(entries.push(e), t, s) by {
            assert(entries.push(e).drop_first() =~= Seq::<ScopeSlotsV>::empty());
            assert(entries.push(e)[0] == e);
            assert(occupancy(entries.push(e).drop_first(), t, s) == all_free());
            assert(occupancy(entries, t, s) == all_free());
            assert(occupancy(entries.push(e), t, s) == occupancy(entries.push(e).drop_first(), t, s));
        }
    }
}

impl Default for SlotTable {
    /// A table with every slot free.
    fn default() -> (r: SlotTable)
        ensures
            forall|t: Seq<char>, s: Seq<char>| #[trigger] occupancy(r@, t, s) == all_free(),
    {
        SlotTable::new()
    }
}

impl SlotTable {
    /// A table with every slot free.
    pub fn new() -> (r: SlotTable)
        ensures
            forall|t: Seq<char>, s: Seq<char>| #[trigger] occupancy(r@, t, s) == all_free(),
    {
        let r = SlotTable { entries: Vec::new() };
        assert(r@ =~= Seq::<ScopeSlotsV>::empty());
        r
    }

    /// The index of the first entry of (team, scope), if any.
    fn find(&self, team: &str, scope: &str) -> (r: Option<usize>)
        ensures
            match r {
                Some(k) => k < self@.len() && self@[k as int].team == team@ && self@[k as int].scope == scope@
                    && forall|j: int| 0 <= j < k ==> !((#[trigger] self@[j]).team == team@ && self@[j].scope == scope@),
                None => forall|j: int| 0 <= j < self@.len() ==> !((#[trigger] self@[j]).team == team@ && self@[j].scope == scope@),
            },
    {
        let mut k: usize = 0;
        while k < self.entries.len()
            invariant
                0 <= k <= self.entries@.len(),
                self@.len() == self.entries@.len(),
                forall|j: int| 0 <= j < k ==> !((#[trigger] self@[j]).team == team@ && self@[j].scope == scope@),
            decreases self.entries.len() - k,
        {
            let e = &self.entries[k];
            assert(self@[k as int] == e@);
            if same_text(e.team.as_str(), team) && same_text(e.scope.as_str(), scope) {
                return Some(k);
            }
            k = k + 1;
        }
        None
    }

    /// Take a slot of (team, scope) for `login`: the preferred slot of the
    /// login when it is free, else the first free slot; `None` when every
    /// slot is busy. The slot taken becomes busy; nothing else changes.
    pub fn try_acquire(&mut self, team: &str, scope: &str, login: &str) -> (r: Option<SlotGuard>)
        ensures
            ({
                let busy = occupancy(old(self)@, team@, scope@);
                match r {
                    Some(g) => {
                        &&& chosen_slot(busy, preferred_slot(login@)) == Some(g.index as int)
                        &&& g.team@ == team@
                        &&& g.scope@ == scope@
                        &&& occupancy(final(self)@, team@, scope@) == busy.update(g.index as int, true)
                    },
                    None => {
                        &&& chosen_slot(busy, preferred_slot(login@)) is None
                        &&& occupancy(final(self)@, team@, scope@) == busy
                    },
                }
            }),
            same_elsewhere(old(self)@, final(self)@, team@, scope@),
    {
        let k = match self.find(team, scope) {
            Some(k) => k,
            None => {
                proof {
                    lemma_occupancy_index(self@, team@, scope@, self@.len() as int);
                }
                let e = ScopeSlots { team: string_of(chars_of(team).as_slice()), scope: string_of(chars_of(scope).as_slice()), busy: [false, false, false, false] };
                let ghost before = self@;
                assert(e@.busy =~= all_free());
                proof {
                    lemma_occupancy_push(before, e@);
                }
                self.entries.push(e);
                assert(self@ =~= before.push(e@));
                (self.entries.len() - 1)
            },
        };
        proof {
            lemma_occupancy_index(self@, team@, scope@, k as int);
        }
        let ghost mid = self@;
        let busy = self.entries[k].busy;
        assert(busy@ == occupancy(mid, team@, scope@));
        let preferred = slot_for_user(login);
        let index = if !busy[preferred] {
            preferred
        } else if !busy[0] {
            0
        } else if !busy[1] {
            1
        } else if !busy[2] {
            2
        } else if !busy[3] {
            3
        } else {
            return None;
        };
        let mut nb = busy;
        nb[index] = true;
        let ghost e_old = mid[k as int];
        proof {
            lemma_occupancy_update(mid, k as int, nb@);
        }
        let mut entries = Vec::new();
        std::mem::swap(&mut entries, &mut self.entries);
        let ScopeSlots { team: et, scope: es, busy: _ } = entries.remove(k);
        entries.insert(k, ScopeSlots { team: et, scope: es, busy: nb });
        self.entries = entries;
        assert(self@ =~= mid.update(k as int, ScopeSlotsV { busy: nb@, ..e_old }));
        assert(nb@ =~= busy@.update(index as int, true));
        Some(SlotGuard { team: string_of(chars_of(team).as_slice()), scope: string_of(chars_of(scope).as_slice()), index })
    }

    /// Free the slot a guard holds.
    pub fn release(&mut self, guard: &SlotGuard)
        requires
            guard.index < SLOTS_PER_SCOPE,
        ensures
            occupancy(final(self)@, guard.team@, guard.scope@) == occupancy(old(self)@, guard.team@, guard.scope@).update(
                guard.index as int,
                false,
            ),
            same_elsewhere(old(self)@, final(self)@, guard.team@, guard.scope@),
    {
        let ghost team = guard.team@;
        let ghost scope = guard.scope@;
        match self.find(guard.team.as_str(), guard.scope.as_str()) {
            None => {
                proof {
                    lemma_occupancy_index(self@, team, scope, self@.len() as int);
                }
                assert(all_free().update(guard.index as int, false) =~= all_free());
            },
            Some(k) => {
                proof {
                    lemma_occupancy_index(self@, team, scope, k as int);
                }
                let ghost mid = self@;
                let mut nb = self.entries[k].busy;
                nb[guard.index] = false;
                let ghost e_old = mid[k as int];
                proof {
                    lemma_occupancy_update(mid, k as int, nb@);
                }
                let mut entries = Vec::new();
                std::mem::swap(&mut entries, &mut self.entries);
                let ScopeSlots { team: et, scope: es, busy: _ } = entries.remove(k);
                entries.insert(k, ScopeSlots { team: et, scope: es, busy: nb });
                self.entries = entries;
                assert(self@ =~= mid.update(k as int, ScopeSlotsV { busy: nb@, ..e_old }));
            },
        }
    }
}

/// A user whose preferred slot is free gets that slot.
pub proof fn law_affinity(busy: Seq<bool>, login: Seq<char>)
    requires
        busy.len() == SLOTS_PER_SCOPE,
        !busy[preferred_slot(login)],
    ensures
        chosen_slot(busy, preferred_slot(login)) == Some(preferred_slot(login)),
{
}

/// A slot is given exactly when one is free, and the slot given was free.
pub proof fn law_slot_given_iff_free(busy: Seq<bool>, login: Seq<char>)
    requires
        busy.len() == SLOTS_PER_SCOPE,
    ensures
        0 <= preferred_slot(login) < SLOTS_PER_SCOPE,
        chosen_slot(busy, preferred_slot(login)) is Some <==> exists|i: int| 0 <= i < SLOTS_PER_SCOPE && !#[trigger] busy[i],
        chosen_slot(busy, preferred_slot(login)) matches Some(i) ==> 0 <= i < SLOTS_PER_SCOPE && !busy[i],
{
    if exists|i: int| 0 <= i < SLOTS_PER_SCOPE && !#[trigger] busy[i] {
        let i = choose|i: int| 0 <= i < SLOTS_PER_SCOPE && !#[trigger] busy[i];
        assert(!busy[i]);
    }
}

/// When the preferred slot is busy, the first free slot is given.
pub proof fn law_fallback_first_free(busy: Seq<bool>, login: Seq<char>, i: int)
    requires
        busy.len() == SLOTS_PER_SCOPE,
        busy[preferred_slot(login)],
        0 <= i < SLOTS_PER_SCOPE,
        !busy[i],
        forall|j: int| 0 <= j < i ==> busy[j],
    ensures
        chosen_slot(busy, preferred_slot(login)) == Some(i),
{
    if i > 0 {
        assert(busy[0]);
    }
    if i > 1 {
        assert(busy[1]);
    }
    if i > 2 {
        assert(busy[2]);
    }
}

/// Releasing a slot that was just taken gives back the flags from before.
pub proof fn law_release_undoes_acquire(busy: Seq<bool>, login: Seq<char>)
    requires
        busy.len() == SLOTS_PER_SCOPE,
        chosen_slot(busy, preferred_slot(login)) is Some,
    ensures
        ({
            let i = chosen_slot(busy, preferred_slot(login)).unwrap();
            busy.update(i, true).update(i, false) == busy
        }),
{
    let i = chosen_slot(busy, preferred_slot(login)).unwrap();
    assert(busy.update(i, true).update(i, false) =~= busy);
}

/// The decimal digits of a number.
pub open spec fn decimal(n: nat) -> Seq<char>
    decreases n,
{
    if n < 10 {
        seq![(48 + n) as u8 as char]
    } else {
        decimal(n / 10) + seq![(48 + n % 10) as u8 as char]
    }
}

/// The decimal digits of `n`.
pub fn decimal_text(n: usize) -> (r: Vec<char>)
    ensures
        r@ == decimal(n as nat),
    decreases n,
{
    if n < 10 {
        let d = n as u8;
        vec![(48u8 + d) as char]
    } else {
        let mut r = decimal_text(n / 10);
        let d = (n % 10) as u8;
        r.push((48u8 + d) as char);
        r
    }
}

/// The directory of a slot of (team, scope): `<root>/<team>_<scope>/slot<index>`.
pub open spec fn slot_dir(root: Seq<char>, team: Seq<char>, scope: Seq<char>, index: nat) -> Seq<char> {
    root + "/"@ + team + "_"@ + scope + "/slot"@ + decimal(index)
}

fn slot_dir_text(root: &str, team: &str, scope: &str, index: usize) -> (r: String)
    ensures
        r@ == slot_dir(root@, team@, scope@, index as nat),
{
    let mut s = chars_of(root);
    let slash = chars_of("/");
    push_chars(&mut s, slash.as_slice());
    let t = chars_of(team);
    push_chars(&mut s, t.as_slice());
    let u = chars_of("_");
    push_chars(&mut s, u.as_slice());
    let c = chars_of(scope);
    push_chars(&mut s, c.as_slice());
    let sl = chars_of("/slot");
    push_chars(&mut s, sl.as_slice());
    let d = decimal_text(index);
    push_chars(&mut s, d.as_slice());
    string_of(s.as_slice())
}

impl SlotGuard {
    /// The slot's workspace under the daemon's home directory `home`.
    pub fn workspace(&self, home: &str, team: &str, scope: &str) -> (r: String)
        ensures
            r@ == slot_dir(home@, team@, scope@, self.index as nat),
    {
        slot_dir_text(home, team, scope, self.index)
    }

    /// The slot's cargo target directory, kept in shared memory.
    pub fn tmpfs_target(&self, team: &str, scope: &str) -> (r: String)
        ensures
            r@ == slot_dir("/dev/shm/abrasive-targets"@, team@, scope@, self.index as nat),
    {
        slot_dir_text("/dev/shm/abrasive-targets", team, scope, self.index)
    }
}

/// One remembered fingerprint: the slot, team and scope it belongs to.
pub struct FingerprintEntry {
    pub index: usize,
    pub team: String,
    pub scope: String,
    pub fingerprint: [u8; 32],
}

/// Per slot, the fingerprint of the last source tree synced into it.
pub struct FingerprintCache {
    entries: Vec<FingerprintEntry>,
}

/// Mathematical view of a remembered fingerprint.
pub struct FingerprintEntryV {
    pub index: nat,
    pub team: Seq<char>,
    pub scope: Seq<char>,
    pub fingerprint: Seq<u8>,
}

/// The fingerprint remembered for (slot, team, scope), if any: that of the
/// last entry for it.
pub open spec fn remembered(entries: Seq<FingerprintEntryV>, index: nat, team: Seq<char>, scope: Seq<char>) -> Option<Seq<u8>>
    decreases entries.len(),
{
    if entries.len() == 0 {
        None
    } else if entries.last().index == index && entries.last().team == team && entries.last().scope == scope {
        Some(entries.last().fingerprint)
    } else {
        remembered(entries.drop_last(), index, team, scope)
    }
}

impl View for FingerprintCache {
    type V = Seq<FingerprintEntryV>;

    closed spec fn view(&self) -> Seq<FingerprintEntryV> {
        self.entries@.map_values(
            |e: FingerprintEntry| FingerprintEntryV { index: e.index as nat, team: e.team@, scope: e.scope@, fingerprint: e.fingerprint@ },
        )
    }
}

impl Default for FingerprintCache {
    /// A cache that remembers nothing.
    fn default() -> (r: FingerprintCache)
        ensures
            forall|i: nat, t: Seq<char>, s: Seq<char>| #[trigger] remembered(r@, i, t, s) is None,
    {
        FingerprintCache::new()
    }
}

impl FingerprintCache {
    /// A cache that remembers nothing.
    pub fn new() -> (r: FingerprintCache)
        ensures
            forall|i: nat, t: Seq<char>, s: Seq<char>| #[trigger] remembered(r@, i, t, s) is None,
    {
        let r = FingerprintCache { entries: Vec::new() };
        assert(r@ =~= Seq::<FingerprintEntryV>::empty());
        r
    }

    /// Whether `fp` is the fingerprint remembered for the slot of (team, scope).
    pub fn matches(&self, slot: &SlotGuard, team: &str, scope: &str, fp: &[u8; 32]) -> (r: bool)
        ensures
            r == (remembered(self@, slot.index as nat, team@, scope@) == Some(fp@)),
    {
        let ghost v = self@;
        let mut k: usize = self.entries.len();
        assert(v.take(k as int) =~= v);
        while k > 0
            invariant
                0 <= k <= self.entries@.len(),
                v == self@,
                remembered(v, slot.index as nat, team@, scope@) == remembered(v.take(k as int), slot.index as nat, team@, scope@),
            decreases k,
        {
            let e = &self.entries[k - 1];
            assert(v.take(k as int).last() == v[k - 1]);
            assert(v.take(k as int).drop_last() =~= v.take(k - 1));
            if e.index == slot.index && same_text(e.team.as_str(), team) && same_text(e.scope.as_str(), scope) {
                assert(remembered(v, slot.index as nat, team@, scope@) == Some(e.fingerprint@));
                let mut j: usize = 0;
                while j < 32
                    invariant
                        0 <= j <= 32,
                        forall|q: int| 0 <= q < j ==> e.fingerprint@[q] == fp@[q],
                        remembered(self@, slot.index as nat, team@, scope@) == Some(e.fingerprint@),
                    decreases 32 - j,
                {
                    if e.fingerprint[j] != fp[j] {
                        assert(e.fingerprint@[j as int] != fp@[j as int]);
                        return false;
                    }
                    j = j + 1;
                }
                assert(e.fingerprint@ =~= fp@);
                return true;
            }
            k = k - 1;
        }
        false
    }

    /// Remember `fp` for the slot of (team, scope), in place of what was
    /// remembered for it.
    pub fn insert(&mut self, slot: &SlotGuard, team: &str, scope: &str, fp: [u8; 32])
        ensures
            final(self)@ == replaced(
                old(self)@,
                FingerprintEntryV { index: slot.index as nat, team: team@, scope: scope@, fingerprint: fp@ },
            ),
    {
        let ghost before = self@;
        let ghost ne = FingerprintEntryV { index: slot.index as nat, team: team@, scope: scope@, fingerprint: fp@ };
        let mut old_entries: Vec<FingerprintEntry> = Vec::new();
        std::mem::swap(&mut old_entries, &mut self.entries);
        let ghost ov = old_entries@.map_values(
            |e: FingerprintEntry| FingerprintEntryV { index: e.index as nat, team: e.team@, scope: e.scope@, fingerprint: e.fingerprint@ },
        );
        assert(ov =~= before);
        let mut kept: Vec<FingerprintEntry> = Vec::new();
        let mut i: usize = 0;
        assert(ov.take(0) =~= Seq::<FingerprintEntryV>::empty());
        assert(kept@.map_values(
            |e: FingerprintEntry| FingerprintEntryV { index: e.index as nat, team: e.team@, scope: e.scope@, fingerprint: e.fingerprint@ },
        ) =~= Seq::<FingerprintEntryV>::empty());
        while i < old_entries.len()
            invariant
                0 <= i <= old_entries.len(),
                ov == old_entries@.map_values(
                    |e: FingerprintEntry| FingerprintEntryV { index: e.index as nat, team: e.team@, scope: e.scope@, fingerprint: e.fingerprint@ },
                ),
                ne == (FingerprintEntryV { index: slot.index as nat, team: team@, scope: scope@, fingerprint: fp@ }),
                kept@.map_values(
                    |e: FingerprintEntry| FingerprintEntryV { index: e.index as nat, team: e.team@, scope: e.scope@, fingerprint: e.fingerprint@ },
                ) == without_slot(ov.take(i as int), ne),
            decreases old_entries.len() - i,
        {
            let e = &old_entries[i];
            assert(ov.take(i + 1).drop_last() =~= ov.take(i as int));
            assert(ov.take(i + 1).last() == ov[i as int]);
            if !(e.index == slot.index && same_text(e.team.as_str(), team) && same_text(e.scope.as_str(), scope)) {
                let ghost prev = kept@.map_values(
                    |e: FingerprintEntry| FingerprintEntryV { index: e.index as nat, team: e.team@, scope: e.scope@, fingerprint: e.fingerprint@ },
                );
                kept.push(
                    FingerprintEntry { index: e.index, team: copy_string(&e.team), scope: copy_string(&e.scope), fingerprint: e.fingerprint },
                );
                assert(kept@.map_values(
                    |e: FingerprintEntry| FingerprintEntryV { index: e.index as nat, team: e.team@, scope: e.scope@, fingerprint: e.fingerprint@ },
                ) =~= prev.push(ov[i as int]));
            }
            i = i + 1;
        }
        assert(ov.take(old_entries.len() as int) =~= ov);
        let ghost kv = kept@.map_values(
            |e: FingerprintEntry| FingerprintEntryV { index: e.index as nat, team: e.team@, scope: e.scope@, fingerprint: e.fingerprint@ },
        );
        kept.push(
            FingerprintEntry { index: slot.index, team: string_of(chars_of(team).as_slice()), scope: string_of(chars_of(scope).as_slice()), fingerprint: fp },
        );
        self.entries = kept;
        assert(self@ =~= kv.push(ne));
    }
}

/// The entries that do not belong to the slot of `e`.
pub open spec fn without_slot(entries: Seq<FingerprintEntryV>, e: FingerprintEntryV) -> Seq<FingerprintEntryV>
    decreases entries.len(),
{
    if entries.len() == 0 {
        Seq::empty()
    } else {
        let r = without_slot(entries.drop_last(), e);
        let l = entries.last();
        if l.index == e.index && l.team == e.team && l.scope == e.scope {
            r
        } else {
            r.push(l)
        }
    }
}

/// The entries after remembering `e` in place of what its slot had.
pub open spec fn replaced(entries: Seq<FingerprintEntryV>, e: FingerprintEntryV) -> Seq<FingerprintEntryV> {
    without_slot(entries, e).push(e)
}

proof fn lemma_without_slot(entries: Seq<FingerprintEntryV>, e: FingerprintEntryV, index: nat, team: Seq<char>, scope: Seq<char>)
    requires
        !(index == e.index && team == e.team && scope == e.scope),
    ensures
        remembered(without_slot(entries, e), index, team, scope) == remembered(entries, index, team, scope),
    decreases entries.len(),
{
    if entries.len() > 0 {
        lemma_without_slot(entries.drop_last(), e, index, team, scope);
        let r = without_slot(entries.drop_last(), e);
        let l = entries.last();
        if !(l.index == e.index && l.team == e.team && l.scope == e.scope) {
            assert(r.push(l).drop_last() =~= r);
        }
    }
}

/// After remembering a fingerprint for a slot, that fingerprint, and no
/// other, matches it; other slots keep what they had.
pub proof fn law_fingerprint_read_back(
    entries: Seq<FingerprintEntryV>,
    e: FingerprintEntryV,
    index: nat,
    team: Seq<char>,
    scope: Seq<char>,
)
    ensures
        remembered(replaced(entries, e), e.index, e.team, e.scope) == Some(e.fingerprint),
        !(index == e.index && team == e.team && scope == e.scope) ==> remembered(replaced(entries, e), index, team, scope)
            == remembered(entries, index, team, scope),
{
    if !(index == e.index && team == e.team && scope == e.scope) {
        lemma_without_slot(entries, e, index, team, scope);
        assert(replaced(entries, e).drop_last() =~= without_slot(entries, e));
    }
}

} // verus!
