use vstd::prelude::*;

use crate::catalog::{ModelInfo, ModelInfoView};
use crate::text::{opt_view, str_equals};

verus! {

/// A model that has been downloaded, for one backend.
#[derive(Debug)]
pub struct InstalledModel {
    pub info: ModelInfo,
    pub file_size_bytes: u64,
    pub downloaded_at: String,
    pub backend: String,
}

pub struct InstalledModelView {
    pub info: ModelInfoView,
    pub file_size_bytes: u64,
    pub downloaded_at: Seq<char>,
    pub backend: Seq<char>,
}

impl View for InstalledModel {
    type V = InstalledModelView;

    open spec fn view(&self) -> InstalledModelView {
        InstalledModelView {
            info: self.info@,
            file_size_bytes: self.file_size_bytes,
            downloaded_at: self.downloaded_at@,
            backend: self.backend@,
        }
    }
}

impl Clone for InstalledModel {
    fn clone(&self) -> (r: Self)
        ensures
            r@ == self@,
    {
        InstalledModel {
            info: self.info.clone(),
            file_size_bytes: self.file_size_bytes,
            downloaded_at: self.downloaded_at.clone(),
            backend: self.backend.clone(),
        }
    }
}

/// The installed models, in the order they were recorded.
#[derive(Debug)]
pub struct ModelRegistry {
    pub installed: Vec<InstalledModel>,
}

pub open spec fn installed_views(v: Seq<InstalledModel>) -> Seq<InstalledModelView> {
    v.map_values(|m: InstalledModel| m@)
}

impl View for ModelRegistry {
    type V = Seq<InstalledModelView>;

    open spec fn view(&self) -> Seq<InstalledModelView> {
        installed_views(self.installed@)
    }
}

/// `m` is the installation of model `id` for backend `backend`.
pub open spec fn in_slot(m: InstalledModelView, id: Seq<char>, backend: Seq<char>) -> bool {
    m.info.id == id && m.backend == backend
}

/// The entries of `reg` that are not the installation of `id` for `backend`, in order.
pub open spec fn without_slot(reg: Seq<InstalledModelView>, id: Seq<char>, backend: Seq<char>) -> Seq<
    InstalledModelView,
> {
    reg.filter(|m: InstalledModelView| !in_slot(m, id, backend))
}

/// The entries of `reg` that are the installation of `id` for `backend`, in order.
pub open spec fn in_slot_entries(reg: Seq<InstalledModelView>, id: Seq<char>, backend: Seq<char>) -> Seq<
    InstalledModelView,
> {
    reg.filter(|m: InstalledModelView| in_slot(m, id, backend))
}

/// The first entry of `reg` from index `from` on that satisfies `slot`.
pub open spec fn first_in_slot(reg: Seq<InstalledModelView>, id: Seq<char>, backend: Seq<char>, from: int) -> Option<
    InstalledModelView,
>
    decreases reg.len() - from,
{
    if from < 0 || from >= reg.len() {
        None
    } else if in_slot(reg[from], id, backend) {
        Some(reg[from])
    } else {
        first_in_slot(reg, id, backend, from + 1)
    }
}

/// The first entry of `reg` from index `from` on for model `id` (any backend).
pub open spec fn first_with_id(reg: Seq<InstalledModelView>, id: Seq<char>, from: int) -> Option<
    InstalledModelView,
>
    decreases reg.len() - from,
{
    if from < 0 || from >= reg.len() {
        None
    } else if reg[from].info.id == id {
        Some(reg[from])
    } else {
        first_with_id(reg, id, from + 1)
    }
}

pub open spec fn opt_installed_view(o: Option<InstalledModel>) -> Option<InstalledModelView> {
    match o {
        Some(m) => Some(m@),
        None => None,
    }
}

/// The error text `Model {id} ({backend}) is not installed`.
pub open spec fn not_installed_error(id: Seq<char>, backend: Seq<char>) -> Seq<char> {
    "Model "@ + id + " ("@ + backend + ") is not installed"@
}

/// The error text `Model {id} not installed`.
pub open spec fn no_size_error(id: Seq<char>) -> Seq<char> {
    "Model "@ + id + " not installed"@
}

fn is_slot(m: &InstalledModel, id: &str, backend: &str) -> (b: bool)
    ensures
        b == in_slot(m@, id@, backend@),
{
    str_equals(m.info.id.as_str(), id) && str_equals(m.backend.as_str(), backend)
}

impl ModelRegistry {
    /// A registry with nothing installed.
    pub fn new() -> (r: ModelRegistry)
        ensures
            r@ == Seq::<InstalledModelView>::empty(),
    {
        ModelRegistry { installed: Vec::new() }
    }

    /// Whether model `id` is recorded as installed for `backend`.
    pub fn is_registered(&self, id: &str, backend: &str) -> (b: bool)
        ensures
            b == exists|i: int| 0 <= i < self@.len() && in_slot(#[trigger] self@[i], id@, backend@),
    {
        let mut i: usize = 0;
        while i < self.installed.len()
            invariant
                i <= self@.len(),
                forall|k: int| 0 <= k < i ==> !in_slot(#[trigger] self@[k], id@, backend@),
            decreases self@.len() - i,
        {
            if is_slot(&self.installed[i], id, backend) {
                assert(in_slot(self@[i as int], id@, backend@));
                return true;
            }
            i = i + 1;
        }
        false
    }

    /// The recorded installation of model `id` for `backend` (the first, should
    /// there be several).
    pub fn find_installed(&self, id: &str, backend: &str) -> (r: Result<InstalledModel, String>)
        ensures
            match r {
                Ok(m) => first_in_slot(self@, id@, backend@, 0) == Some(m@),
                Err(e) => first_in_slot(self@, id@, backend@, 0) is None && e@
                    == not_installed_error(id@, backend@),
            },
    {
        let mut i: usize = 0;
        while i < self.installed.len()
            invariant
                i <= self@.len(),
                first_in_slot(self@, id@, backend@, i as int) == first_in_slot(
                    self@,
                    id@,
                    backend@,
                    0,
                ),
            decreases self@.len() - i,
        {
            if is_slot(&self.installed[i], id, backend) {
                return Ok(self.installed[i].clone());
            }
            i = i + 1;
        }
        let mut e = "Model ".to_owned();
        e.append(id);
        e.append(" (");
        e.append(backend);
        e.append(") is not installed");
        Err(e)
    }

    /// The file size recorded for model `id` (its first installation, any backend).
    pub fn file_size_of(&self, id: &str) -> (r: Result<u64, String>)
        ensures
            match r {
                Ok(n) => first_with_id(self@, id@, 0) matches Some(m) && m.file_size_bytes == n,
                Err(e) => first_with_id(self@, id@, 0) is None && e@ == no_size_error(id@),
            },
    {
        let mut i: usize = 0;
        while i < self.installed.len()
            invariant
                i <= self@.len(),
                first_with_id(self@, id@, i as int) == first_with_id(self@, id@, 0),
            decreases self@.len() - i,
        {
            if str_equals(self.installed[i].info.id.as_str(), id) {
                return Ok(self.installed[i].file_size_bytes);
            }
            i = i + 1;
        }
        let mut e = "Model ".to_owned();
        e.append(id);
        e.append(" not installed");
        Err(e)
    }

    /// Forgets every installation of model `id` for `backend`; all other entries
    /// stay, in order.
    pub fn remove_slot(&mut self, id: &str, backend: &str)
        ensures
            final(self)@ == without_slot(old(self)@, id@, backend@),
    {
        let ghost all = self@;
        let ghost pred = |m: InstalledModelView| !in_slot(m, id@, backend@);
        let mut kept: Vec<InstalledModel> = Vec::new();
        let mut j: usize = 0;
        let n = self.installed.len();
        while self.installed.len() > 0
            invariant
                n == all.len(),
                j <= n,
                pred == (|m: InstalledModelView| !in_slot(m, id@, backend@)),
                self@ == all.skip(j as int),
                installed_views(kept@) == all.take(j as int).filter(pred),
            decreases self@.len(),
        {
            let ghost cur = self.installed@;
            let m = self.installed.remove(0);
            proof {
                assert(installed_views(cur)[0] == cur[0]@);
                assert(all.skip(j as int)[0] == all[j as int]);
                assert(m@ == all[j as int]);
                assert(all.take(j + 1) == all.take(j as int).push(all[j as int]));
                all.take(j as int).lemma_filter_push(all[j as int], pred);
                assert(installed_views(self.installed@) =~= installed_views(cur).skip(1));
                assert(all.skip(j as int).skip(1) =~= all.skip(j + 1));
            }
            if !is_slot(&m, id, backend) {
                let ghost before = kept@;
                kept.push(m);
                assert(installed_views(kept@) =~= installed_views(before).push(all[j as int]));
            }
            j = j + 1;
        }
        assert(all.take(n as int) == all);
        self.installed = kept;
    }

    /// Records `entry` as the installation of its model for its backend: any earlier
    /// installation of that model for that backend is forgotten, the other entries
    /// stay in order, and `entry` comes last.
    pub fn record_install(&mut self, entry: InstalledModel)
        ensures
            final(self)@ == without_slot(old(self)@, entry@.info.id, entry@.backend).push(entry@),
    {
        let id = entry.info.id.clone();
        let backend = entry.backend.clone();
        self.remove_slot(id.as_str(), backend.as_str());
        let ghost before = self.installed@;
        self.installed.push(entry);
        assert(self@ =~= installed_views(before).push(entry@));
    }

    /// The entries whose files are present (`present[i]` says whether the file of
    /// entry `i` exists), in order.
    pub fn present_entries(&self, present: &Vec<bool>) -> (r: Vec<InstalledModel>)
        requires
            present@.len() == self@.len(),
        ensures
            installed_views(r@) == kept_where(self@, present@),
    {
        let mut r: Vec<InstalledModel> = Vec::new();
        let mut i: usize = 0;
        while i < self.installed.len()
            invariant
                i <= self@.len(),
                present@.len() == self@.len(),
                installed_views(r@) == kept_where(self@.take(i as int), present@.take(i as int)),
            decreases self@.len() - i,
        {
            assert(self@.take(i + 1).drop_last() == self@.take(i as int));
            assert(present@.take(i + 1).drop_last() == present@.take(i as int));
            if present[i] {
                let c = self.installed[i].clone();
                let ghost before = r@;
                r.push(c);
                assert(installed_views(r@) =~= installed_views(before).push(self@[i as int]));
            }
            i = i + 1;
        }
        assert(self@.take(self@.len() as int) == self@);
        assert(present@.take(self@.len() as int) == present@);
        r
    }
}

/// The entries of `reg` whose flag in `present` is set, in order.
pub open spec fn kept_where(reg: Seq<InstalledModelView>, present: Seq<bool>) -> Seq<
    InstalledModelView,
>
    decreases reg.len(),
{
    if reg.len() == 0 || present.len() == 0 {
        Seq::empty()
    } else {
        let prev = kept_where(reg.drop_last(), present.drop_last());
        if present.last() {
            prev.push(reg.last())
        } else {
            prev
        }
    }
}


proof fn lemma_first_in_slot_skips(s: Seq<InstalledModelView>, id: Seq<char>, backend: Seq<char>, from: int)
    requires
        0 <= from <= s.len(),
        forall|i: int| from <= i < s.len() ==> !in_slot(#[trigger] s[i], id, backend),
    ensures
        first_in_slot(s, id, backend, from) is None,
    decreases s.len() - from,
{
    if from < s.len() {
        lemma_first_in_slot_skips(s, id, backend, from + 1);
    }
}

proof fn lemma_first_in_slot_last(s: Seq<InstalledModelView>, e: InstalledModelView, from: int)
    requires
        0 <= from <= s.len(),
        forall|i: int| from <= i < s.len() ==> !in_slot(#[trigger] s[i], e.info.id, e.backend),
    ensures
        first_in_slot(s.push(e), e.info.id, e.backend, from) == Some(e),
    decreases s.len() - from,
{
    if from < s.len() {
        assert(s.push(e)[from] == s[from]);
        lemma_first_in_slot_last(s, e, from + 1);
    } else {
        assert(s.push(e)[from] == e);
    }
}

/// Recording an installation and then looking up its model and backend finds
/// exactly the recorded entry: it is the only entry for that model and backend,
/// and the entries of every other model or backend are those there were before.
pub proof fn lemma_record_then_find(reg: Seq<InstalledModelView>, e: InstalledModelView)
    ensures
        ({
            let after = without_slot(reg, e.info.id, e.backend).push(e);
            &&& first_in_slot(after, e.info.id, e.backend, 0) == Some(e)
            &&& in_slot_entries(after, e.info.id, e.backend) == seq![e]
            &&& forall|id: Seq<char>, b: Seq<char>|
                !(id == e.info.id && b == e.backend) ==> #[trigger] in_slot_entries(after, id, b)
                    == in_slot_entries(reg, id, b)
        }),
{
    let pe = |m: InstalledModelView| !in_slot(m, e.info.id, e.backend);
    let w = without_slot(reg, e.info.id, e.backend);
    assert forall|i: int| 0 <= i < w.len() implies !in_slot(#[trigger] w[i], e.info.id, e.backend) by {
        reg.lemma_filter_pred(pe, i);
    }
    lemma_first_in_slot_last(w, e, 0);
    let ps = |m: InstalledModelView| in_slot(m, e.info.id, e.backend);
    w.lemma_filter_push(e, ps);
    assert(w.all(|y: InstalledModelView| !ps(y)));
    w.lemma_all_neg_filter_empty(ps);
    assert(w.filter(ps) =~= Seq::<InstalledModelView>::empty());
    assert(Seq::<InstalledModelView>::empty().push(e) =~= seq![e]);
    assert forall|id: Seq<char>, b: Seq<char>|
        !(id == e.info.id && b == e.backend) implies #[trigger] in_slot_entries(
        w.push(e),
        id,
        b,
    ) == in_slot_entries(reg, id, b) by {
        let q = |m: InstalledModelView| in_slot(m, id, b);
        w.lemma_filter_push(e, q);
        lemma_filter_filter(reg, pe, q);
    }
}

/// Filtering by `p` and then by `q` keeps the same entries as filtering by `q`
/// when no entry that `q` keeps is dropped by `p`.
proof fn lemma_filter_filter(
    s: Seq<InstalledModelView>,
    p: spec_fn(InstalledModelView) -> bool,
    q: spec_fn(InstalledModelView) -> bool,
)
    requires
        forall|m: InstalledModelView| #[trigger] q(m) ==> p(m),
    ensures
        s.filter(p).filter(q) == s.filter(q),
    decreases s.len(),
{
    if s.len() > 0 {
        let d = s.drop_last();
        lemma_filter_filter(d, p, q);
        assert(s == d.push(s.last()));
        d.lemma_filter_push(s.last(), p);
        d.lemma_filter_push(s.last(), q);
        if p(s.last()) {
            d.filter(p).lemma_filter_push(s.last(), q);
        }
    } else {
        reveal(Seq::filter);
    }
}

/// After an installation is forgotten, no entry for that model and backend is
/// left, and looking it up finds nothing.
pub proof fn lemma_removed_not_found(reg: Seq<InstalledModelView>, id: Seq<char>, backend: Seq<char>)
    ensures
        first_in_slot(without_slot(reg, id, backend), id, backend, 0) is None,
        in_slot_entries(without_slot(reg, id, backend), id, backend).len() == 0,
{
    let pe = |m: InstalledModelView| !in_slot(m, id, backend);
    let w = without_slot(reg, id, backend);
    assert forall|i: int| 0 <= i < w.len() implies !in_slot(#[trigger] w[i], id, backend) by {
        reg.lemma_filter_pred(pe, i);
    }
    lemma_first_in_slot_skips(w, id, backend, 0);
    let ps = |m: InstalledModelView| in_slot(m, id, backend);
    assert(w.all(|y: InstalledModelView| !ps(y)));
    w.lemma_all_neg_filter_empty(ps);
}

} // verus!
