//! Owner-keyed aggregation with hardlink deduplication.
//!
//! Each visited filesystem entry is reduced to a [`VisitRecord`]: the
//! owner id, the device/inode identity, and the two candidate sizes.
//! [`UserTable::observe`] attributes the entry to its owner, counting a
//! given identity's bytes at most once per owner and every further
//! hardlink to it as a link.  The ghost model is a map from owner id to
//! [`UserView`], evolved by the spec function [`step`]; a whole
//! traversal is the fold [`run`].

use vstd::prelude::*;
use std::collections::HashSet;
use crate::wrap::{add64, mul512, wrap_add, wrap_mul512};
use crate::counter::Counter;
use crate::counter::summary_line;

verus! {

broadcast use vstd::std_specs::hash::group_hash_axioms;

/// One successfully stat'ed filesystem entry, as plain values.
pub struct VisitRecord {
    /// The path by which the entry was reached (display only).
    pub path: String,
    /// Numeric id of the owning user, from the entry's metadata.
    pub uid: u32,
    /// Device id of the filesystem holding the entry.
    pub dev: u64,
    /// Inode number, unique per device.
    pub ino: u64,
    /// Apparent (logical) byte length.
    pub len: u64,
    /// Allocated 512-byte blocks.
    pub blocks: u64,
}

/// The ghost image of a [`VisitRecord`].
#[verifier::ext_equal]
pub ghost struct RecView {
    pub path: Seq<char>,
    pub uid: u32,
    pub dev: u64,
    pub ino: u64,
    pub len: u64,
    pub blocks: u64,
}

impl View for VisitRecord {
    type V = RecView;

    open spec fn view(&self) -> RecView {
        RecView {
            path: self.path@,
            uid: self.uid,
            dev: self.dev,
            ino: self.ino,
            len: self.len,
            blocks: self.blocks,
        }
    }
}

/// The identity of a filesystem object: device id and inode number
/// packed into one value.  Hardlinks share it; distinct objects on one
/// device, or any objects on distinct devices, do not (see
/// [`lemma_file_id_injective`]).
pub open spec fn file_id(dev: u64, ino: u64) -> u128 {
    (dev as int * 0x1_0000_0000_0000_0000 + ino as int) as u128
}

/// Packs a device/inode pair into its identity.
pub fn make_file_id(dev: u64, ino: u64) -> (r: u128)
    ensures
        r == file_id(dev, ino),
{
    (dev as u128) * 0x1_0000_0000_0000_0000u128 + (ino as u128)
}

/// Distinct device/inode pairs have distinct identities.
pub proof fn lemma_file_id_injective(d1: u64, i1: u64, d2: u64, i2: u64)
    requires
        file_id(d1, i1) == file_id(d2, i2),
    ensures
        d1 == d2 && i1 == i2,
{
    assert(d1 as int * 0x1_0000_0000_0000_0000 + i1 as int == d2 as int
        * 0x1_0000_0000_0000_0000 + i2 as int ==> d1 == d2 && i1 == i2) by (nonlinear_arith)
        requires i1 <= 0xFFFF_FFFF_FFFF_FFFF && i2 <= 0xFFFF_FFFF_FFFF_FFFF;
}

/// The size attributed to a record: its apparent length, or its
/// allocated blocks at 512 bytes each.
pub open spec fn chosen_size(r: RecView, apparent_size: bool) -> u64 {
    if apparent_size {
        r.len
    } else {
        mul512(r.blocks)
    }
}

/// One owner's accumulated statistics, as the ghost model sees them.
#[verifier::ext_equal]
pub ghost struct UserView {
    /// Distinct objects attributed to this owner.
    pub n_files: u64,
    /// Further hardlinks to objects already attributed.
    pub n_links: u64,
    /// Bytes of the distinct objects, 64-bit wrapping.
    pub n_bytes: u64,
    /// Identities already counted for this owner.
    pub files: Set<u128>,
}

/// A freshly created owner entry.
pub open spec fn empty_user() -> UserView {
    UserView { n_files: 0, n_links: 0, n_bytes: 0, files: Set::empty() }
}

/// The owner's statistics in `m`, a fresh entry if the owner is new.
pub open spec fn lookup(m: Map<u32, UserView>, uid: u32) -> UserView {
    if m.contains_key(uid) {
        m[uid]
    } else {
        empty_user()
    }
}

/// How one record changes the owner map: a new identity for its owner
/// counts as a file and its chosen size; a known identity counts as a
/// link and no bytes.
pub open spec fn step(m: Map<u32, UserView>, r: RecView, apparent_size: bool) -> Map<
    u32,
    UserView,
> {
    let u = lookup(m, r.uid);
    let id = file_id(r.dev, r.ino);
    if u.files.contains(id) {
        m.insert(
            r.uid,
            UserView {
                n_files: u.n_files,
                n_links: add64(u.n_links, 1),
                n_bytes: u.n_bytes,
                files: u.files,
            },
        )
    } else {
        m.insert(
            r.uid,
            UserView {
                n_files: add64(u.n_files, 1),
                n_links: u.n_links,
                n_bytes: add64(u.n_bytes, chosen_size(r, apparent_size)),
                files: u.files.insert(id),
            },
        )
    }
}

/// The bytes a record contributes: its chosen size when its identity is
/// new to its owner, zero otherwise.
pub open spec fn counted_bytes(m: Map<u32, UserView>, r: RecView, apparent_size: bool) -> u64 {
    if lookup(m, r.uid).files.contains(file_id(r.dev, r.ino)) {
        0
    } else {
        chosen_size(r, apparent_size)
    }
}

/// A whole traversal: the records folded over [`step`] in visit order.
pub open spec fn run(m: Map<u32, UserView>, s: Seq<RecView>, apparent_size: bool) -> Map<
    u32,
    UserView,
>
    decreases s.len(),
{
    if s.len() == 0 {
        m
    } else {
        step(run(m, s.drop_last(), apparent_size), s.last(), apparent_size)
    }
}

/// How the progress counter evolves over a traversal: one tick per
/// record, plus that record's counted bytes (both wrapping).
pub open spec fn run_tick(
    m: Map<u32, UserView>,
    c: (u64, u64),
    s: Seq<RecView>,
    apparent_size: bool,
) -> (u64, u64)
    decreases s.len(),
{
    if s.len() == 0 {
        c
    } else {
        let prev = run_tick(m, c, s.drop_last(), apparent_size);
        (
            add64(prev.0, 1),
            add64(prev.1, counted_bytes(run(m, s.drop_last(), apparent_size), s.last(), apparent_size)),
        )
    }
}

/// The ghost images of a sequence of records.
pub open spec fn views_of(s: Seq<VisitRecord>) -> Seq<RecView> {
    s.map_values(|r: VisitRecord| r@)
}

/// One owner's executable statistics.
pub struct User {
    /// Distinct objects attributed to this owner.
    pub n_files: u64,
    /// Further hardlinks to objects already attributed.
    pub n_links: u64,
    /// Bytes of the distinct objects, 64-bit wrapping.
    pub n_bytes: u64,
    /// Identities already counted for this owner.
    pub files: HashSet<u128>,
}

impl View for User {
    type V = UserView;

    open spec fn view(&self) -> UserView {
        UserView {
            n_files: self.n_files,
            n_links: self.n_links,
            n_bytes: self.n_bytes,
            files: self.files@,
        }
    }
}

impl User {
    /// An owner entry with nothing counted.
    pub fn new() -> (r: User)
        ensures
            r@ == empty_user(),
    {
        let r = User { n_files: 0, n_links: 0, n_bytes: 0, files: HashSet::new() };
        proof {
            assert(r@ =~~= empty_user());
        }
        r
    }
}

/// The ghost image of one table entry.
pub open spec fn pair_view(p: (u32, User)) -> (u32, UserView) {
    (p.0, p.1@)
}

/// The owner map a sequence of entries denotes, later entries winning.
pub open spec fn row_map(s: Seq<(u32, UserView)>) -> Map<u32, UserView>
    decreases s.len(),
{
    if s.len() == 0 {
        Map::empty()
    } else {
        row_map(s.drop_last()).insert(s.last().0, s.last().1)
    }
}

/// No owner id occurs twice.
pub open spec fn distinct_uids(s: Seq<(u32, UserView)>) -> bool {
    forall|i: int, j: int| 0 <= i < j < s.len() ==> s[i].0 != s[j].0
}

/// Whether some entry carries `uid`.
pub open spec fn has_uid(s: Seq<(u32, UserView)>, uid: u32) -> bool {
    exists|i: int| 0 <= i < s.len() && s[i].0 == uid
}

proof fn lemma_row_map_dom(s: Seq<(u32, UserView)>, uid: u32)
    ensures
        row_map(s).contains_key(uid) <==> has_uid(s, uid),
    decreases s.len(),
{
    if s.len() == 0 {
    } else {
        lemma_row_map_dom(s.drop_last(), uid);
        if row_map(s).contains_key(uid) {
            if s.last().0 == uid {
                assert(s[s.len() - 1].0 == uid);
            } else {
                let i = choose|i: int| 0 <= i < s.drop_last().len() && s.drop_last()[i].0 == uid;
                assert(s[i].0 == uid);
            }
        }
        if has_uid(s, uid) {
            let i = choose|i: int| 0 <= i < s.len() && s[i].0 == uid;
            if i < s.len() - 1 {
                assert(s.drop_last()[i].0 == uid);
            }
        }
    }
}

proof fn lemma_row_map_at(s: Seq<(u32, UserView)>, i: int)
    requires
        distinct_uids(s),
        0 <= i < s.len(),
    ensures
        row_map(s).contains_key(s[i].0),
        row_map(s)[s[i].0] == s[i].1,
    decreases s.len(),
{
    if i == s.len() - 1 {
    } else {
        assert(distinct_uids(s.drop_last()));
        assert(s.drop_last()[i] == s[i]);
        lemma_row_map_at(s.drop_last(), i);
        assert(s[i].0 != s.last().0);
    }
}

proof fn lemma_row_map_update(s: Seq<(u32, UserView)>, i: int, v: UserView)
    requires
        distinct_uids(s),
        0 <= i < s.len(),
    ensures
        row_map(s.update(i, (s[i].0, v))) =~= row_map(s).insert(s[i].0, v),
    decreases s.len(),
{
    let u = s[i].0;
    let su = s.update(i, (u, v));
    if i == s.len() - 1 {
        assert(su.drop_last() =~= s.drop_last());
        assert(su.last() == (u, v));
        assert(row_map(su) =~= row_map(s).insert(u, v));
    } else {
        assert(su.drop_last() =~= s.drop_last().update(i, (u, v)));
        assert(su.last() == s.last());
        assert(distinct_uids(s.drop_last()));
        assert(s.drop_last()[i] == s[i]);
        lemma_row_map_update(s.drop_last(), i, v);
        assert(u != s.last().0);
        assert(row_map(s.drop_last()).insert(u, v).insert(s.last().0, s.last().1) =~= row_map(
            s.drop_last(),
        ).insert(s.last().0, s.last().1).insert(u, v));
    }
}

proof fn lemma_row_map_push(s: Seq<(u32, UserView)>, uid: u32, v: UserView)
    ensures
        row_map(s.push((uid, v))) =~= row_map(s).insert(uid, v),
{
    assert(s.push((uid, v)).drop_last() =~= s);
}

/// Compact per-owner counts, for sorting and reporting.
#[derive(Clone, Copy, Debug, PartialEq, Eq, Structural)]
pub struct RowData {
    pub uid: u32,
    pub n_files: u64,
    pub n_links: u64,
    pub n_bytes: u64,
}

/// The row a table entry yields.
pub open spec fn row_of(p: (u32, UserView)) -> RowData {
    RowData { uid: p.0, n_files: p.1.n_files, n_links: p.1.n_links, n_bytes: p.1.n_bytes }
}

/// The owner aggregator: one entry per owner id seen so far.
pub struct UserTable {
    entries: Vec<(u32, User)>,
}

impl View for UserTable {
    type V = Map<u32, UserView>;

    open spec fn view(&self) -> Map<u32, UserView> {
        row_map(self.rows())
    }
}

impl UserTable {
    /// The table's entries in insertion order, as ghost values.
    pub closed spec fn rows(&self) -> Seq<(u32, UserView)> {
        self.entries@.map_values(|p: (u32, User)| pair_view(p))
    }

    /// Each owner id owns at most one entry.
    pub open spec fn wf(&self) -> bool {
        distinct_uids(self.rows())
    }

    /// An empty table.
    pub fn new() -> (r: UserTable)
        ensures
            r.wf(),
            r@ == Map::<u32, UserView>::empty(),
            r.rows().len() == 0,
    {
        let r = UserTable { entries: Vec::new() };
        proof {
            assert(r.rows() =~= Seq::<(u32, UserView)>::empty());
        }
        r
    }

    fn find_uid(&self, uid: u32) -> (r: Option<usize>)
        ensures
            (match r {
                Some(i) => i < self.rows().len() && self.rows()[i as int].0 == uid,
                None => !has_uid(self.rows(), uid),
            }),
    {
        let n = self.entries.len();
        let mut i: usize = 0;
        while i < n
            invariant
                0 <= i <= n,
                n == self.entries@.len(),
                forall|j: int| 0 <= j < i ==> self.rows()[j].0 != uid,
            decreases n - i,
        {
            if self.entries[i].0 == uid {
                return Some(i);
            }
            i = i + 1;
        }
        None
    }

    /// The per-owner statistics recorded for `uid`, if any.
    pub fn stats_for(&self, uid: u32) -> (r: Option<RowData>)
        requires
            self.wf(),
        ensures
            (match r {
                Some(row) => self@.contains_key(uid) && row == row_of((uid, self@[uid])),
                None => !self@.contains_key(uid),
            }),
    {
        proof {
            lemma_row_map_dom(self.rows(), uid);
        }
        match self.find_uid(uid) {
            Some(i) => {
                proof {
                    lemma_row_map_at(self.rows(), i as int);
                }
                let e = &self.entries[i];
                Some(RowData { uid: e.0, n_files: e.1.n_files, n_links: e.1.n_links, n_bytes: e.1.n_bytes })
            },
            None => None,
        }
    }

    /// Feeds one visited entry into the table, as [`step`] states:
    /// returns the bytes counted (the record's chosen size if its
    /// identity is new to its owner, else zero).
    pub fn observe(&mut self, rec: &VisitRecord, apparent_size: bool) -> (counted: u64)
        requires
            old(self).wf(),
        ensures
            final(self).wf(),
            final(self)@ == step(old(self)@, rec@, apparent_size),
            counted == counted_bytes(old(self)@, rec@, apparent_size),
    {
        let uid = rec.uid;
        let id = make_file_id(rec.dev, rec.ino);
        let sz: u64 = if apparent_size {
            rec.len
        } else {
            wrap_mul512(rec.blocks)
        };
        proof {
            lemma_row_map_dom(old(self).rows(), uid);
        }
        match self.find_uid(uid) {
            Some(i) => {
                proof {
                    lemma_row_map_at(self.rows(), i as int);
                }
                let ghost rows0 = self.rows();
                let entry = &mut self.entries[i];
                let newly = entry.1.files.insert(id);
                if newly {
                    entry.1.n_files = wrap_add(entry.1.n_files, 1);
                    entry.1.n_bytes = wrap_add(entry.1.n_bytes, sz);
                } else {
                    entry.1.n_links = wrap_add(entry.1.n_links, 1);
                }
                proof {
                    let nv = self.entries@[i as int].1@;
                    assert(self.rows() =~= rows0.update(i as int, (uid, nv)));
                    lemma_row_map_update(rows0, i as int, nv);
                    assert(final(self)@ =~~= step(old(self)@, rec@, apparent_size));
                }
                if newly {
                    sz
                } else {
                    0
                }
            },
            None => {
                let mut u = User::new();
                let _ = u.files.insert(id);
                u.n_files = 1;
                u.n_bytes = sz;
                let ghost rows0 = self.rows();
                let ghost uv = u@;
                self.entries.push((uid, u));
                proof {
                    assert(self.rows() =~= rows0.push((uid, uv)));
                    lemma_row_map_push(rows0, uid, uv);
                    assert(!old(self)@.contains_key(uid));
                    assert(final(self)@ =~~= step(old(self)@, rec@, apparent_size));
                }
                sz
            },
        }
    }
}

/// Aggregates a batch of visited entries in order: each record goes
/// through [`UserTable::observe`] and ticks `counter` with its counted
/// bytes; the returned string is the counter's closing summary line.
pub fn collect_stats(
    records: &Vec<VisitRecord>,
    apparent_size: bool,
    users: &mut UserTable,
    counter: &mut Counter,
) -> (summary: String)
    requires
        old(users).wf(),
    ensures
        final(users).wf(),
        final(users)@ == run(old(users)@, views_of(records@), apparent_size),
        (final(counter).count, final(counter).total) == run_tick(
            old(users)@,
            (old(counter).count, old(counter).total),
            views_of(records@),
            apparent_size,
        ),
        summary@ == summary_line(final(counter).count, final(counter).total),
{
    let ghost s = views_of(records@);
    let n = records.len();
    let mut i: usize = 0;
    while i < n
        invariant
            0 <= i <= n,
            n == records@.len(),
            users.wf(),
            users@ == run(old(users)@, s.take(i as int), apparent_size),
            (counter.count, counter.total) == run_tick(
                old(users)@,
                (old(counter).count, old(counter).total),
                s.take(i as int),
                apparent_size,
            ),
            s == views_of(records@),
        decreases n - i,
    {
        let rec = &records[i];
        let counted = users.observe(rec, apparent_size);
        let _ = counter.inc(rec.path.as_str(), counted);
        i = i + 1;
        proof {
            assert(s.take(i as int).drop_last() =~= s.take(i as int - 1));
            assert(s.take(i as int).last() == rec@);
        }
    }
    proof {
        assert(s.take(n as int) =~= s);
    }
    counter.finalize()
}

/// The element-wise wrapping sum of a sequence.
pub open spec fn sum64(s: Seq<u64>) -> u64
    decreases s.len(),
{
    if s.len() == 0 {
        0
    } else {
        add64(sum64(s.drop_last()), s.last())
    }
}

/// The distinct-file counts of the entries.
pub open spec fn files_counts(s: Seq<(u32, UserView)>) -> Seq<u64> {
    s.map_values(|p: (u32, UserView)| p.1.n_files)
}

/// The hardlink counts of the entries.
pub open spec fn links_counts(s: Seq<(u32, UserView)>) -> Seq<u64> {
    s.map_values(|p: (u32, UserView)| p.1.n_links)
}

/// The byte totals of the entries.
pub open spec fn bytes_counts(s: Seq<(u32, UserView)>) -> Seq<u64> {
    s.map_values(|p: (u32, UserView)| p.1.n_bytes)
}

/// The grand total: every owner's counts summed element-wise (wrapping,
/// as the per-owner counters themselves wrap); its identity set is a
/// fresh empty one.
pub fn calculate_totals(users: &UserTable) -> (total: User)
    ensures
        total.n_files == sum64(files_counts(users.rows())),
        total.n_links == sum64(links_counts(users.rows())),
        total.n_bytes == sum64(bytes_counts(users.rows())),
        total@.files == Set::<u128>::empty(),
{
    let mut total = User::new();
    let rows = users.user_rows();
    let n = rows.len();
    let mut i: usize = 0;
    while i < n
        invariant
            0 <= i <= n,
            n == rows@.len(),
            rows@.len() == users.rows().len(),
            forall|k: int| 0 <= k < n ==> rows@[k] == row_of(users.rows()[k]),
            total.n_files == sum64(files_counts(users.rows()).take(i as int)),
            total.n_links == sum64(links_counts(users.rows()).take(i as int)),
            total.n_bytes == sum64(bytes_counts(users.rows()).take(i as int)),
            total@.files == Set::<u128>::empty(),
        decreases n - i,
    {
        total.n_files = wrap_add(total.n_files, rows[i].n_files);
        total.n_links = wrap_add(total.n_links, rows[i].n_links);
        total.n_bytes = wrap_add(total.n_bytes, rows[i].n_bytes);
        i = i + 1;
        proof {
            assert(files_counts(users.rows()).take(i as int).drop_last() =~= files_counts(
                users.rows(),
            ).take(i as int - 1));
            assert(links_counts(users.rows()).take(i as int).drop_last() =~= links_counts(
                users.rows(),
            ).take(i as int - 1));
            assert(bytes_counts(users.rows()).take(i as int).drop_last() =~= bytes_counts(
                users.rows(),
            ).take(i as int - 1));
        }
    }
    proof {
        assert(files_counts(users.rows()).take(n as int) =~= files_counts(users.rows()));
        assert(links_counts(users.rows()).take(n as int) =~= links_counts(users.rows()));
        assert(bytes_counts(users.rows()).take(n as int) =~= bytes_counts(users.rows()));
    }
    total
}

impl UserTable {
    /// Every owner's compact counts, in the table's insertion order.
    pub fn user_rows(&self) -> (r: Vec<RowData>)
        ensures
            r@.len() == self.rows().len(),
            forall|i: int| 0 <= i < r@.len() ==> r@[i] == row_of(self.rows()[i]),
    {
        let n = self.entries.len();
        let mut r: Vec<RowData> = Vec::new();
        let mut i: usize = 0;
        while i < n
            invariant
                0 <= i <= n,
                n == self.entries@.len(),
                r@.len() == i,
                forall|k: int| 0 <= k < i ==> r@[k] == row_of(self.rows()[k]),
            decreases n - i,
        {
            let e = &self.entries[i];
            r.push(RowData { uid: e.0, n_files: e.1.n_files, n_links: e.1.n_links, n_bytes: e.1.n_bytes });
            i = i + 1;
        }
        r
    }
}

} // verus!
