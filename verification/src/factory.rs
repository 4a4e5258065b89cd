//! The factory: the config-derived object graph owning all storages,
//! processes and backup reserves, and the per-cycle scheduler that advances
//! every process in configured order.

use vstd::prelude::*;

use crate::access::FluidAccess;
use crate::detail_cache::DetailCache;
use crate::process::{
    lemma_process_stuck_congruence, process_stuck, step_post, step_process, Action, Process,
};
use crate::util::{wit1, wit3};
use crate::recipe::{all_wf, lemma_same_contents_trans, same_contents, MAX_STORAGES};
use crate::storage::Storage;

verus! {

/// The whole object graph: ordered storages and processes, the backup
/// storage pool, fluid bookkeeping, the metadata cache, and the cycle
/// parameters. A factory is built once per configuration and replaced
/// wholesale on reload, never patched.
pub struct Factory {
    pub storages: Vec<Storage>,
    pub backup_storages: Vec<Storage>,
    pub processes: Vec<Process>,
    pub detail_cache: DetailCache,
    pub server_port: u16,
    pub min_cycle_time_secs: u64,
    pub log_clients: Vec<String>,
    pub fluid_bus_accesses: Vec<FluidAccess>,
    pub fluid_backups: Vec<FluidAccess>,
    pub fluid_bus_capacity: u32,
}

/// What one cycle does: the processes are advanced strictly in configured
/// order, each per `step_post` against the pools its predecessors left,
/// and the returned actions are their actions concatenated in that order.
pub open spec fn cycle_rel(
    ps0: Seq<Process>,
    s0: Seq<Storage>,
    b0: Seq<Storage>,
    ps1: Seq<Process>,
    s1: Seq<Storage>,
    b1: Seq<Storage>,
    acts: Seq<Action>,
) -> bool
    decreases ps0.len(),
{
    &&& ps1.len() == ps0.len()
    &&& if ps0.len() == 0 {
        s1 == s0 && b1 == b0 && acts == Seq::<Action>::empty()
    } else {
        exists|smid: Seq<Storage>, bmid: Seq<Storage>, amid: Seq<Action>, alast: Seq<Action>|
            #![trigger wit3(smid, bmid, amid), wit1(alast)]
            {
                &&& wit3(smid, bmid, amid)
                &&& wit1(alast)
                &&& cycle_rel(ps0.drop_last(), s0, b0, ps1.drop_last(), smid, bmid, amid)
                &&& step_post(ps0.last(), ps1.last(), smid, bmid, s1, b1, alast)
                &&& acts == amid + alast
            }
    }
}

impl Factory {
    pub open spec fn wf(self) -> bool {
        &&& all_wf(self.storages@)
        &&& all_wf(self.backup_storages@)
        &&& self.storages@.len() <= MAX_STORAGES
        &&& self.backup_storages@.len() <= MAX_STORAGES
        &&& forall|i: int|
            0 <= i < self.processes@.len() ==> (#[trigger] self.processes@[i]).wf()
    }

    /// No process of the factory can make progress against the pools.
    pub open spec fn spec_stuck(self) -> bool {
        forall|i: int|
            0 <= i < self.processes@.len() ==> process_stuck(
                #[trigger] self.processes@[i],
                self.storages@,
                self.backup_storages@,
            )
    }

    /// Run one cycle: advance every process in configured order, collecting
    /// the outward-facing actions the processes ask for. Storages are
    /// passive and need no per-cycle housekeeping in this model. A cycle
    /// against a factory where no process can make progress leaves all
    /// storage contents unchanged.
    #[verifier::loop_isolation(false)]
    pub fn run_cycle(&mut self) -> (actions: Vec<Action>)
        requires
            old(self).wf(),
        ensures
            final(self).wf(),
            final(self).storages@.len() == old(self).storages@.len(),
            final(self).backup_storages@.len() == old(self).backup_storages@.len(),
            final(self).processes@.len() == old(self).processes@.len(),
            final(self).server_port == old(self).server_port,
            final(self).min_cycle_time_secs == old(self).min_cycle_time_secs,
            final(self).log_clients == old(self).log_clients,
            final(self).fluid_bus_accesses == old(self).fluid_bus_accesses,
            final(self).fluid_backups == old(self).fluid_backups,
            final(self).fluid_bus_capacity == old(self).fluid_bus_capacity,
            final(self).detail_cache == old(self).detail_cache,
            old(self).spec_stuck() ==> same_contents(old(self).storages@, final(self).storages@)
                && same_contents(old(self).backup_storages@, final(self).backup_storages@),
            cycle_rel(old(self).processes@, old(self).storages@, old(self).backup_storages@, final(self).processes@, final(self).storages@, final(self).backup_storages@, actions@),
    {
        let ghost orig = *old(self);
        let mut actions: Vec<Action> = Vec::new();
        let mut i: usize = 0;
        proof {
            crate::recipe::lemma_same_contents_refl(orig.storages@);
            crate::recipe::lemma_same_contents_refl(orig.backup_storages@);
            assert(orig.processes@.take(0) =~= Seq::<Process>::empty());
            assert(self.processes@.take(0) =~= Seq::<Process>::empty());
            assert(actions@ =~= Seq::<Action>::empty());
        }
        while i < self.processes.len()
            invariant
                all_wf(self.storages@),
                all_wf(self.backup_storages@),
                self.storages@.len() == orig.storages@.len(),
                self.backup_storages@.len() == orig.backup_storages@.len(),
                orig.storages@.len() <= MAX_STORAGES,
                orig.backup_storages@.len() <= MAX_STORAGES,
                self.processes@.len() == orig.processes@.len(),
                i <= self.processes@.len(),
                forall|j: int|
                    0 <= j < self.processes@.len() ==> (#[trigger] self.processes@[j]).wf(),
                forall|j: int|
                    i <= j < self.processes@.len() ==> self.processes@[j] == orig.processes@[j],
                self.server_port == orig.server_port,
                self.min_cycle_time_secs == orig.min_cycle_time_secs,
                self.log_clients == orig.log_clients,
                self.fluid_bus_accesses == orig.fluid_bus_accesses,
                self.fluid_backups == orig.fluid_backups,
                self.fluid_bus_capacity == orig.fluid_bus_capacity,
                self.detail_cache == orig.detail_cache,
                orig.spec_stuck() ==> same_contents(orig.storages@, self.storages@)
                    && same_contents(orig.backup_storages@, self.backup_storages@),
                cycle_rel(orig.processes@.take(i as int), orig.storages@, orig.backup_storages@, self.processes@.take(i as int), self.storages@, self.backup_storages@, actions@),
            decreases self.processes@.len() - i,
        {
            let ghost pre_s = self.storages@;
            let ghost pre_b = self.backup_storages@;
            let ghost pre_p = self.processes@[i as int];
            proof {
                if orig.spec_stuck() {
                    assert(process_stuck(
                        orig.processes@[i as int],
                        orig.storages@,
                        orig.backup_storages@,
                    ));
                    lemma_process_stuck_congruence(
                        orig.processes@[i as int],
                        orig.storages@,
                        orig.backup_storages@,
                        pre_s,
                        pre_b,
                    );
                }
            }
            let ghost pre_acts = actions@;
            let ghost pre_ps = self.processes@;
            let elem = vstd::std_specs::vec::vec_index_mut(&mut self.processes, i);
            let mut acts = step_process(elem, &mut self.storages, &mut self.backup_storages);
            let ghost step_acts = acts@;
            actions.append(&mut acts);
            proof {
                if orig.spec_stuck() {
                    lemma_same_contents_trans(orig.storages@, pre_s, self.storages@);
                    lemma_same_contents_trans(orig.backup_storages@, pre_b, self.backup_storages@);
                }
                assert(orig.processes@.take(i + 1).drop_last() =~= orig.processes@.take(i as int));
                assert(self.processes@.take(i as int) =~= pre_ps.take(i as int));
                assert(self.processes@.take(i + 1).drop_last() =~= self.processes@.take(i as int));
                assert(orig.processes@.take(i + 1).last() == orig.processes@[i as int]);
                assert(self.processes@.take(i + 1).last() == self.processes@[i as int]);
                assert(actions@ == pre_acts + step_acts);
                assert(wit3(pre_s, pre_b, pre_acts));
                assert(wit1(step_acts));
                assert(step_post(
                    orig.processes@[i as int],
                    self.processes@[i as int],
                    pre_s,
                    pre_b,
                    self.storages@,
                    self.backup_storages@,
                    step_acts,
                ));
                assert(cycle_rel(orig.processes@.take(i + 1), orig.storages@, orig.backup_storages@, self.processes@.take(i + 1), self.storages@, self.backup_storages@, actions@));
            }
            i += 1;
        }
        proof {
            assert(orig.processes@.take(orig.processes@.len() as int) =~= orig.processes@);
            assert(self.processes@.take(self.processes@.len() as int) =~= self.processes@);
        }
        actions
    }
}

/// How long to wait before the next cycle may begin, so that no cycle
/// starts sooner than `min_cycle_time` after the previous cycle began.
pub fn next_cycle_delay(cycle_start: u64, now: u64, min_cycle_time: u64) -> (d: u64)
    requires
        cycle_start <= now,
        cycle_start + min_cycle_time <= u64::MAX,
    ensures
        now + d >= cycle_start + min_cycle_time,
        d > 0 ==> now + d == cycle_start + min_cycle_time,
        d == 0 ==> now >= cycle_start + min_cycle_time,
{
    let target = cycle_start + min_cycle_time;
    if now >= target {
        0
    } else {
        target - now
    }
}

} // verus!
