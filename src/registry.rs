use vstd::prelude::*;

verus! {

/// What a connection may do to the store.
#[derive(Clone, Copy, Debug, PartialEq, Eq, Structural)]
pub enum ConnectionKind {
    ReadOnly,
    ReadWrite,
    Sync,
}

/// A report that more than one write-capable connection of one kind is alive.
#[derive(Clone, Copy, Debug, PartialEq, Eq, Structural)]
pub struct Diagnostic {
    pub kind: ConnectionKind,
    pub live_count: usize,
}

impl Diagnostic {
    /// The stable category under which the report is filed.
    pub fn category(&self) -> (r: &'static str)
        ensures
            self.kind == ConnectionKind::Sync ==> r@ == "MultiplePlacesSyncConnections"@,
            self.kind != ConnectionKind::Sync ==> r@ == "MultiplePlacesReadWriteConnections"@,
    {
        proof {
            reveal_strlit("MultiplePlacesSyncConnections");
            reveal_strlit("MultiplePlacesReadWriteConnections");
        }
        match self.kind {
            ConnectionKind::Sync => "MultiplePlacesSyncConnections",
            _ => "MultiplePlacesReadWriteConnections",
        }
    }
}

/// The entries of `entries` whose liveness flag is set, in order.
pub open spec fn live_entries(entries: Seq<u64>, alive: Seq<bool>) -> Seq<u64>
    decreases entries.len(),
{
    if entries.len() == 0 {
        Seq::empty()
    } else {
        let rest = live_entries(entries.drop_last(), alive);
        if alive[entries.len() - 1] {
            rest.push(entries.last())
        } else {
            rest
        }
    }
}

proof fn lemma_live_entries_len(entries: Seq<u64>, alive: Seq<bool>)
    ensures
        live_entries(entries, alive).len() <= entries.len(),
    decreases entries.len(),
{
    if entries.len() > 0 {
        lemma_live_entries_len(entries.drop_last(), alive);
    }
}

/// Drops the entries that are no longer alive, records `new_id`, and reports the
/// number of live entries when that is more than one.
pub fn prune_and_register(entries: &mut Vec<u64>, alive: &Vec<bool>, new_id: u64) -> (r: Option<
    usize,
>)
    requires
        old(entries).len() == alive.len(),
    ensures
        final(entries)@ == live_entries(old(entries)@, alive@).push(new_id),
        r == (if final(entries)@.len() > 1 {
            Some(final(entries)@.len() as usize)
        } else {
            None::<usize>
        }),
{
    let mut kept: Vec<u64> = Vec::new();
    let mut i: usize = 0;
    while i < entries.len()
        invariant
            i <= entries.len(),
            entries@ == old(entries)@,
            entries.len() == alive.len(),
            kept@ == live_entries(entries@.take(i as int), alive@),
        decreases entries.len() - i,
    {
        assert(entries@.take(i as int + 1).drop_last() =~= entries@.take(i as int));
        if alive[i] {
            kept.push(entries[i]);
        }
        i = i + 1;
    }
    assert(entries@.take(entries.len() as int) =~= entries@);
    proof {
        lemma_live_entries_len(old(entries)@, alive@);
    }
    kept.push(new_id);
    *entries = kept;
    if entries.len() > 1 {
        Some(entries.len())
    } else {
        None
    }
}

/// The write-capable connections known to be open, one list per kind.
pub struct ConnectionRegistry {
    pub read_write: Vec<u64>,
    pub sync: Vec<u64>,
}

impl ConnectionRegistry {
    /// A registry that knows of no connection.
    pub fn new() -> (r: ConnectionRegistry)
        ensures
            r.read_write@.len() == 0,
            r.sync@.len() == 0,
    {
        ConnectionRegistry { read_write: Vec::new(), sync: Vec::new() }
    }

    /// The list that tracks connections of `kind`; read-only ones are not tracked.
    pub open spec fn tracked_list(&self, kind: ConnectionKind) -> Seq<u64> {
        match kind {
            ConnectionKind::ReadWrite => self.read_write@,
            ConnectionKind::Sync => self.sync@,
            ConnectionKind::ReadOnly => Seq::empty(),
        }
    }

    /// Records a new connection of `kind`, given which of the current entries of
    /// that kind are still alive. Never fails; returns a diagnostic when more
    /// than one connection of the kind is then alive.
    pub fn register(&mut self, kind: ConnectionKind, new_id: u64, alive: &Vec<bool>) -> (r: Option<
        Diagnostic,
    >)
        requires
            kind != ConnectionKind::ReadOnly ==> alive@.len() == old(self).tracked_list(kind).len(),
        ensures
            kind == ConnectionKind::ReadOnly ==> *final(self) == *old(self) && r is None,
            kind == ConnectionKind::ReadWrite ==> final(self).sync@ == old(self).sync@,
            kind == ConnectionKind::Sync ==> final(self).read_write@ == old(self).read_write@,
            kind != ConnectionKind::ReadOnly ==> {
                &&& final(self).tracked_list(kind) == live_entries(
                    old(self).tracked_list(kind),
                    alive@,
                ).push(new_id)
                &&& r == (if final(self).tracked_list(kind).len() > 1 {
                    Some(
                        Diagnostic {
                            kind,
                            live_count: final(self).tracked_list(kind).len() as usize,
                        },
                    )
                } else {
                    None::<Diagnostic>
                })
            },
    {
        let count = match kind {
            ConnectionKind::ReadWrite => prune_and_register(&mut self.read_write, alive, new_id),
            ConnectionKind::Sync => prune_and_register(&mut self.sync, alive, new_id),
            ConnectionKind::ReadOnly => None,
        };
        match count {
            Some(live_count) => Some(Diagnostic { kind, live_count }),
            None => None,
        }
    }
}

/// When every tracked connection of a kind is still alive, registering one more
/// keeps them all: the kind's list then holds `n + 1` entries, so `register`
/// returns one diagnostic counting `n + 1` exactly when `n` is at least one.
pub proof fn lemma_duplicate_writer_reported(entries: Seq<u64>, new_id: u64)
    ensures
        live_entries(entries, Seq::new(entries.len(), |i: int| true)).push(new_id).len()
            == entries.len() + 1,
{
    lemma_all_alive_kept(entries, Seq::new(entries.len(), |i: int| true));
}

proof fn lemma_all_alive_kept(entries: Seq<u64>, alive: Seq<bool>)
    requires
        entries.len() <= alive.len(),
        forall|i: int| 0 <= i < alive.len() ==> alive[i],
    ensures
        live_entries(entries, alive) == entries,
    decreases entries.len(),
{
    if entries.len() > 0 {
        lemma_all_alive_kept(entries.drop_last(), alive);
        assert(entries.drop_last().push(entries.last()) =~= entries);
    }
}

} // verus!
