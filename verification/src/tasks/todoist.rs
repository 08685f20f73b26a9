//! Tasks kept in step with a task service.
use vstd::prelude::*;

verus! {

/// A task as the service gives it out.
#[derive(Debug)]
pub struct Task {
    pub id: String,
    pub content: Option<String>,
    pub labels: Vec<String>,
}

/// Whether one of `tasks` has the id `id`.
pub open spec fn has_task(tasks: Seq<Task>, id: Seq<char>) -> bool {
    exists|k: int| 0 <= k < tasks.len() && (#[trigger] tasks[k]).id@ == id
}

/// The ids among `stored` that none of `tasks` has, in their order.
pub open spec fn stale(stored: Seq<Seq<char>>, tasks: Seq<Task>) -> Seq<Seq<char>> {
    stored.filter(|id: Seq<char>| !has_task(tasks, id))
}

/// Whether one of `tasks` has the id `id`.
pub fn is_known(tasks: &Vec<Task>, id: &String) -> (r: bool)
    ensures
        r == has_task(tasks@, id@),
{
    let mut k: usize = 0;
    while k < tasks.len()
        invariant
            k <= tasks.len(),
            forall|j: int| 0 <= j < k ==> (#[trigger] tasks@[j]).id@ != id@,
        decreases tasks.len() - k,
    {
        if tasks[k].id == *id {
            return true;
        }
        k += 1;
    }
    false
}

/// The tasks to delete from the database after a sync: the stored ids that
/// the service no longer gives out.
pub fn stale_tasks(stored: &Vec<String>, tasks: &Vec<Task>) -> (gone: Vec<String>)
    ensures
        gone@.map_values(|s: String| s@) == stale(stored@.map_values(|s: String| s@), tasks@),
{
    let ghost all = stored@.map_values(|s: String| s@);
    let ghost wanted = |id: Seq<char>| !has_task(tasks@, id);
    let mut gone: Vec<String> = Vec::new();
    let mut k: usize = 0;
    assert(all.take(0).filter(wanted) =~= Seq::<Seq<char>>::empty()) by {
        assert(all.take(0) =~= Seq::<Seq<char>>::empty());
    }
    assert(gone@.map_values(|s: String| s@) =~= Seq::<Seq<char>>::empty());
    while k < stored.len()
        invariant
            k <= stored.len(),
            all == stored@.map_values(|s: String| s@),
            wanted == |id: Seq<char>| !has_task(tasks@, id),
            gone@.map_values(|s: String| s@) == all.take(k as int).filter(wanted),
        decreases stored.len() - k,
    {
        let ghost before = gone@.map_values(|s: String| s@);
        proof {
            assert(all.take(k + 1) =~= all.take(k as int).push(all[k as int]));
            all.take(k as int).lemma_filter_push(all[k as int], wanted);
            assert(all[k as int] == stored@[k as int]@);
        }
        if !is_known(tasks, &stored[k]) {
            gone.push(stored[k].clone());
            assert(gone@.map_values(|s: String| s@) =~= before.push(all[k as int]));
        }
        k += 1;
    }
    assert(all.take(all.len() as int) =~= all);
    gone
}

} // verus!
