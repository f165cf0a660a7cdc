//! The bundled wallpaper source. It keeps its registered instances, asks
//! the remote search service page by page until a page yields anything,
//! and turns the service's records into wallpaper candidates, skipping
//! every id the host already holds. The HTTP exchange itself is the
//! driver's; here is everything the plugin decides.

use vstd::prelude::*;

use crate::HostError;
use crate::candidate::Candidate;
use crate::keys::str_eq;
use crate::registry::{
    InstanceEntry, inst_view, has_key, spec_register, spec_deregister, lemma_register_at,
    lemma_register_missing, lemma_deregister_at,
};

verus! {

/// The purity classes the source is asked for.
#[derive(Clone, Copy, Debug, PartialEq, Eq, Structural)]
pub enum Purity {
    Sfw,
}

/// The content categories of a record.
#[derive(Clone, Copy, Debug, PartialEq, Eq, Structural)]
pub enum Category {
    Anime,
    General,
}

/// The image formats a record may carry.
#[derive(Clone, Copy, Debug, PartialEq, Eq, Structural)]
pub enum FileType {
    ImageJpeg,
    ImagePng,
}

/// The thumbnail variants of a record.
#[derive(Debug)]
pub struct Thumbs {
    pub large: Option<String>,
    pub original: String,
    pub small: Option<String>,
}

/// One record of a search response page.
#[derive(Debug)]
pub struct Datum {
    pub id: String,
    pub url: String,
    pub short_url: String,
    pub views: u64,
    pub favorites: u64,
    pub source: String,
    pub purity: Purity,
    pub category: Category,
    pub dimension_x: u64,
    pub dimension_y: u64,
    pub resolution: String,
    pub ratio: String,
    pub file_size: u64,
    pub file_type: FileType,
    pub created_at: String,
    pub colors: Vec<String>,
    pub path: String,
    pub thumbs: Option<Thumbs>,
}

/// The source plugin: its registered instances, keyed by instance id.
pub struct WallHaven {
    instances: Vec<InstanceEntry>,
}

impl View for WallHaven {
    type V = Seq<InstanceEntry>;

    closed spec fn view(&self) -> Seq<InstanceEntry> {
        self.instances@
    }
}

impl WallHaven {
    /// The source's invariant: one entry per instance id, so a register
    /// followed by an inspect reads back what was stored.
    pub open spec fn wf(&self) -> bool {
        forall|i: int, j: int|
            0 <= i < j < self@.len() ==> (#[trigger] self@[i]).id@ != (#[trigger] self@[j]).id@
    }

    /// A source with no instances yet.
    pub fn new() -> (r: WallHaven)
        ensures
            r@ == Seq::<InstanceEntry>::empty(),
            r.wf(),
    {
        WallHaven { instances: Vec::new() }
    }

    /// Registers or overwrites an instance. Instance ids must not contain
    /// the key separator, else they could not be told apart inside a
    /// composite source key; such ids are rejected.
    pub fn register_instance(&mut self, id: String, params: Vec<u8>) -> (r: Result<
        (),
        HostError,
    >)
        requires
            old(self).wf(),
        ensures
            final(self).wf(),
            match r {
                Ok(_) => !crate::keys::has_separator(id@) && inst_view(final(self)@) ==
                    spec_register(inst_view(old(self)@), id@, params@).0,
                Err(e) => e == HostError::NotFound && crate::keys::has_separator(id@)
                    && final(self)@ == old(self)@,
            },
    {
        match crate::keys::split_key(id.as_str()) {
            Some(parts) => {
                proof {
                    assert(id@[parts.0@.len() as int] == crate::keys::key_separator());
                    assert(crate::keys::has_separator(id@));
                }
                return Err(HostError::NotFound);
            },
            None => {},
        }
        let n = self.instances.len();
        let mut k: usize = 0;
        while k < n
            invariant
                0 <= k <= n,
                n == self@.len(),
                self@ == old(self)@,
                old(self).wf(),
                !crate::keys::has_separator(id@),
                forall|x: int| 0 <= x < k ==> (#[trigger] self@[x]).id@ != id@,
            decreases n - k,
        {
            if str_eq(self.instances[k].id.as_str(), id.as_str()) {
                let ghost before = inst_view(self@);
                let ghost entries_before = self@;
                let ghost idv = id@;
                let ghost pv = params@;
                self.instances.set(k, InstanceEntry { id, params });
                proof {
                    assert(before[k as int].0 == idv);
                    lemma_register_at(before, idv, pv, k as int);
                    assert(inst_view(self@) =~= before.update(k as int, (idv, pv)));
                    assert forall|a: int, b: int| 0 <= a < b < self@.len() implies
                        (#[trigger] self@[a]).id@ != (#[trigger] self@[b]).id@ by {
                        assert(self@[a].id@ == entries_before[a].id@);
                        assert(self@[b].id@ == entries_before[b].id@);
                    }
                }
                return Ok(());
            }
            k = k + 1;
        }
        let ghost before = inst_view(self@);
        let ghost idv = id@;
        let ghost pv = params@;
        self.instances.push(InstanceEntry { id, params });
        proof {
            assert(forall|x: int| 0 <= x < before.len() ==> (#[trigger] before[x]).0 != idv);
            lemma_register_missing(before, idv, pv);
            assert(inst_view(self@) =~= before.push((idv, pv)));
            assert forall|a: int, b: int| 0 <= a < b < self@.len() implies
                (#[trigger] self@[a]).id@ != (#[trigger] self@[b]).id@ by {
                if b < self@.len() - 1 {
                    assert(self@[a] == old(self)@[a] && self@[b] == old(self)@[b]);
                } else {
                    assert(self@[b].id@ == idv);
                    assert(self@[a] == old(self)@[a]);
                    assert(old(self)@[a].id@ == before[a].0);
                }
            }
        }
        Ok(())
    }

    /// Removes an instance; an id that was never registered is not found.
    pub fn deregister_instance(&mut self, id: &str) -> (r: Result<(), HostError>)
        requires
            old(self).wf(),
        ensures
            final(self).wf(),
            match r {
                Ok(_) => has_key(inst_view(old(self)@), id@) && inst_view(final(self)@)
                    == spec_deregister(inst_view(old(self)@), id@),
                Err(e) => e == HostError::NotFound && !has_key(inst_view(old(self)@), id@)
                    && final(self)@ == old(self)@,
            },
    {
        let n = self.instances.len();
        let mut k: usize = 0;
        while k < n
            invariant
                0 <= k <= n,
                n == self@.len(),
                self@ == old(self)@,
                old(self).wf(),
                forall|x: int| 0 <= x < k ==> (#[trigger] self@[x]).id@ != id@,
            decreases n - k,
        {
            if str_eq(self.instances[k].id.as_str(), id) {
                let ghost before = inst_view(self@);
                let ghost entries_before = self@;
                self.instances.remove(k);
                proof {
                    assert(before[k as int].0 == id@);
                    lemma_deregister_at(before, id@, k as int);
                    assert(inst_view(self@) =~= before.remove(k as int));
                    assert forall|a: int, b: int| 0 <= a < b < self@.len() implies
                        (#[trigger] self@[a]).id@ != (#[trigger] self@[b]).id@ by {
                        if b < k as int {
                            assert(self@[a] == entries_before[a] && self@[b]
                                == entries_before[b]);
                        } else if a < k as int {
                            assert(self@[a] == entries_before[a] && self@[b]
                                == entries_before[b + 1]);
                        } else {
                            assert(self@[a] == entries_before[a + 1] && self@[b]
                                == entries_before[b + 1]);
                        }
                    }
                }
                return Ok(());
            }
            k = k + 1;
        }
        proof {
            assert(forall|x: int|
                0 <= x < inst_view(self@).len() ==> (#[trigger] inst_view(self@)[x]).0 != id@);
        }
        Err(HostError::NotFound)
    }

    /// The parameters of an instance, or not-found.
    pub fn inspect_instance(&self, id: &str) -> (r: Result<&Vec<u8>, HostError>)
        ensures
            match r {
                Ok(p) => exists|i: int|
                    0 <= i < self@.len() && (#[trigger] self@[i]).id@ == id@ && p@ == self@[i]
                        .params@,
                Err(e) => e == HostError::NotFound && !has_key(inst_view(self@), id@),
            },
    {
        let n = self.instances.len();
        let mut k: usize = 0;
        while k < n
            invariant
                0 <= k <= n,
                n == self@.len(),
                forall|x: int| 0 <= x < k ==> (#[trigger] self@[x]).id@ != id@,
            decreases n - k,
        {
            if str_eq(self.instances[k].id.as_str(), id) {
                return Ok(&self.instances[k].params);
            }
            k = k + 1;
        }
        proof {
            assert(forall|x: int|
                0 <= x < inst_view(self@).len() ==> (#[trigger] inst_view(self@)[x]).0 != id@);
        }
        Err(HostError::NotFound)
    }

    /// The ids of every registered instance, in order.
    pub fn get_instances(&self) -> (r: Vec<String>)
        ensures
            r.deep_view() == self@.map_values(|e: InstanceEntry| e.id@),
    {
        let n = self.instances.len();
        let mut out: Vec<String> = Vec::new();
        let mut i: usize = 0;
        proof {
            assert(out.deep_view() =~= self@.take(0).map_values(|e: InstanceEntry| e.id@));
        }
        while i < n
            invariant
                0 <= i <= n,
                n == self@.len(),
                out.deep_view() == self@.take(i as int).map_values(|e: InstanceEntry| e.id@),
            decreases n - i,
        {
            let ghost prev = out.deep_view();
            out.push(self.instances[i].id.clone());
            proof {
                assert(out.deep_view() =~= prev.push(self@[i as int].id@));
                assert(self@.take(i + 1).map_values(|e: InstanceEntry| e.id@) =~= prev.push(
                    self@[i as int].id@,
                ));
            }
            i = i + 1;
        }
        proof {
            assert(self@.take(n as int) =~= self@);
        }
        out
    }
}

/// Whether the host already named this id among the ones it holds.
pub fn id_known(known_ids: &Vec<String>, id: &str) -> (r: bool)
    ensures
        r == known_ids.deep_view().contains(id@),
{
    let n = known_ids.len();
    let mut k: usize = 0;
    while k < n
        invariant
            0 <= k <= n,
            n == known_ids@.len(),
            forall|x: int| 0 <= x < k ==> (#[trigger] known_ids.deep_view()[x]) != id@,
        decreases n - k,
    {
        proof {
            assert(known_ids.deep_view()[k as int] == known_ids@[k as int]@);
        }
        if str_eq(known_ids[k].as_str(), id) {
            return true;
        }
        k = k + 1;
    }
    proof {
        if known_ids.deep_view().contains(id@) {
            let w = choose|w: int|
                0 <= w < known_ids.deep_view().len() && known_ids.deep_view()[w] == id@;
            assert(known_ids.deep_view()[w] != id@);
        }
    }
    false
}

/// The candidate a record becomes, apart from its fetch timestamp: the
/// record's own id doubles as the display name, the image path is the
/// data URL, the record's page the info URL.
pub open spec fn matches_datum(c: Candidate, d: Datum, source: Seq<char>) -> bool {
    &&& c.id@ == d.id@
    &&& c.name matches Some(nm) && nm@ == d.id@
    &&& c.data_url@ == d.path@
    &&& c.info_url matches Some(u) && u@ == d.url@
    &&& c.source@ == source
    &&& c.was_set == false
}

/// The records of a page whose ids the host does not hold yet, in order.
pub open spec fn fresh_data(data: Seq<Datum>, known: Seq<Seq<char>>) -> Seq<Datum>
    decreases data.len(),
{
    if data.len() == 0 {
        Seq::empty()
    } else {
        let rest = fresh_data(data.drop_last(), known);
        if known.contains(data.last().id@) {
            rest
        } else {
            rest.push(data.last())
        }
    }
}

/// Turns one response page into candidates for `source`, skipping every
/// record whose id the host already holds.
pub fn page_candidates(source: &String, data: Vec<Datum>, known_ids: &Vec<String>) -> (r: Vec<
    Candidate,
>)
    ensures
        r@.len() == fresh_data(data@, known_ids.deep_view()).len(),
        forall|k: int|
            0 <= k < r@.len() ==> matches_datum(
                #[trigger] r@[k],
                fresh_data(data@, known_ids.deep_view())[k],
                source@,
            ),
{
    let ghost all = data@;
    let ghost known = known_ids.deep_view();
    let mut out: Vec<Candidate> = Vec::new();
    let mut rest = data;
    let n = rest.len();
    let mut i: usize = 0;
    proof {
        assert(rest@ =~= all.subrange(0, n as int));
        assert(fresh_data(all.take(0), known) =~= Seq::<Datum>::empty());
    }
    while i < n
        invariant
            0 <= i <= n,
            n == all.len(),
            known == known_ids.deep_view(),
            rest@ == all.subrange(i as int, n as int),
            out@.len() == fresh_data(all.take(i as int), known).len(),
            forall|k: int|
                0 <= k < out@.len() ==> matches_datum(
                    #[trigger] out@[k],
                    fresh_data(all.take(i as int), known)[k],
                    source@,
                ),
        decreases n - i,
    {
        let d = rest.remove(0);
        proof {
            assert(d == all[i as int]);
            assert(rest@ =~= all.subrange(i + 1, n as int));
            assert(all.take(i + 1).drop_last() =~= all.take(i as int));
            assert(all.take(i + 1).last() == all[i as int]);
        }
        if !id_known(known_ids, d.id.as_str()) {
            let name = d.id.clone();
            let c = Candidate::new(d.id, Some(name), d.path, Some(d.url), source.clone());
            let ghost prev = out@;
            out.push(c);
            proof {
                assert(fresh_data(all.take(i + 1), known) == fresh_data(
                    all.take(i as int),
                    known,
                ).push(all[i as int]));
                assert(out@ =~= prev.push(c));
                assert(matches_datum(c, all[i as int], source@));
                assert forall|k: int| 0 <= k < out@.len() implies matches_datum(
                    #[trigger] out@[k],
                    fresh_data(all.take(i + 1), known)[k],
                    source@,
                ) by {
                    if k < prev.len() {
                        assert(out@[k] == prev[k]);
                        assert(fresh_data(all.take(i + 1), known)[k] == fresh_data(
                            all.take(i as int),
                            known,
                        )[k]);
                    }
                }
            }
        } else {
            proof {
                assert(fresh_data(all.take(i + 1), known) == fresh_data(
                    all.take(i as int),
                    known,
                ));
            }
        }
        i = i + 1;
    }
    proof {
        assert(all.take(n as int) =~= all);
    }
    out
}

/// Whether the paging loop must fetch another page: it stops at the
/// first page that yielded any candidate. The driver must also stop when
/// the service has no pages left, since a service whose whole result set
/// the host already holds never yields one.
pub fn wants_next_page(found: usize) -> (r: bool)
    ensures
        r == (found == 0),
{
    found == 0
}

} // verus!
