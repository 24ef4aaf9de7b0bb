use vstd::prelude::*;

verus! {

/// A drawable scheduled in a draw pass: its identity and its z value.
#[derive(Clone, Copy, Debug, PartialEq, Eq, Structural)]
pub struct DrawEntry {
    pub id: u64,
    pub z: u32,
}

/// Entries appear in non-decreasing z order.
pub open spec fn z_sorted(s: Seq<DrawEntry>) -> bool {
    forall|i: int, j: int| 0 <= i < j < s.len() ==> s[i].z <= s[j].z
}

/// `s` with `e` placed right after the last entry, seen from the back, whose z
/// does not exceed `e.z`.
pub open spec fn insert_by_z(s: Seq<DrawEntry>, e: DrawEntry) -> Seq<DrawEntry>
    decreases s.len(),
{
    if s.len() == 0 || s.last().z <= e.z {
        s.push(e)
    } else {
        insert_by_z(s.drop_last(), e).push(s.last())
    }
}

/// Every entry of `p`, in order, placed into `s` by `insert_by_z`.
pub open spec fn insert_all_by_z(s: Seq<DrawEntry>, p: Seq<DrawEntry>) -> Seq<DrawEntry>
    decreases p.len(),
{
    if p.len() == 0 {
        s
    } else {
        insert_by_z(insert_all_by_z(s, p.drop_last()), p.last())
    }
}

/// The identities of the entries, in order.
pub open spec fn ids_of(s: Seq<DrawEntry>) -> Seq<u64> {
    s.map_values(|e: DrawEntry| e.id)
}

/// The entries whose identity is not `id`, in order.
pub open spec fn without_id(s: Seq<DrawEntry>, id: u64) -> Seq<DrawEntry> {
    s.filter(|e: DrawEntry| e.id != id)
}

/// Some entry of `s` has identity `id`.
pub open spec fn has_id(s: Seq<DrawEntry>, id: u64) -> bool {
    exists|i: int| 0 <= i < s.len() && s[i].id == id
}

/// What a draw pass holds: the realized drawables in draw order, and the
/// drawables added since the last render, in the order they were added.
pub struct DrawPassModel {
    pub active: Seq<DrawEntry>,
    pub pending: Seq<DrawEntry>,
}

impl DrawPassModel {
    /// The realized drawables are kept in z order.
    pub open spec fn wf(self) -> bool {
        z_sorted(self.active)
    }

    /// The pass after `add_drawable(id, z)`.
    pub open spec fn added(self, e: DrawEntry) -> DrawPassModel {
        DrawPassModel { active: self.active, pending: self.pending.push(e) }
    }

    /// The pass after a sequence of `add_drawable` calls.
    pub open spec fn added_all(self, adds: Seq<DrawEntry>) -> DrawPassModel {
        DrawPassModel { active: self.active, pending: self.pending + adds }
    }

    /// The pass after `remove_drawable(id)`.
    pub open spec fn removed(self, id: u64) -> DrawPassModel {
        DrawPassModel { active: without_id(self.active, id), pending: without_id(self.pending, id) }
    }

    /// The pass after `render`: every pending drawable realized and placed by z.
    pub open spec fn rendered(self) -> DrawPassModel {
        DrawPassModel {
            active: insert_all_by_z(self.active, self.pending),
            pending: Seq::empty(),
        }
    }

    /// The drawables that `render` initializes, in order.
    pub open spec fn init_order(self) -> Seq<u64> {
        ids_of(self.pending)
    }

    /// The drawables that `render` draws, in order.
    pub open spec fn draw_order(self) -> Seq<u64> {
        ids_of(self.rendered().active)
    }
}

/// What one `render` of a draw pass does: the drawables to initialize, then the
/// drawables to draw, each in order.
pub struct DrawPlan {
    pub init: Vec<u64>,
    pub draw: Vec<u64>,
}

/// A render pass that draws its drawables in order of their z value; a
/// drawable added to it is initialized and realized at the start of the next
/// render.
pub struct PrimaryDrawPass {
    drawables: Vec<DrawEntry>,
    new_drawables: Vec<DrawEntry>,
    name: String,
}

impl PrimaryDrawPass {
    pub closed spec fn view(&self) -> DrawPassModel {
        DrawPassModel { active: self.drawables@, pending: self.new_drawables@ }
    }

    pub closed spec fn name_view(&self) -> Seq<char> {
        self.name@
    }

    pub open spec fn wf(&self) -> bool {
        self@.wf()
    }

    /// A pass with no drawables; the name shows in diagnostics.
    pub fn new(name: &str) -> (r: PrimaryDrawPass)
        ensures
            r.wf(),
            r@.active == Seq::<DrawEntry>::empty(),
            r@.pending == Seq::<DrawEntry>::empty(),
            r.name_view() == name@,
    {
        PrimaryDrawPass { drawables: Vec::new(), new_drawables: Vec::new(), name: name.to_owned() }
    }

    pub fn get_name(&self) -> (r: &str)
        ensures
            r@ == self.name_view(),
    {
        self.name.as_str()
    }

    /// Adds a drawable with a z value; it takes part from the next render on.
    /// The highest z is drawn last, so it shows on top.
    pub fn add_drawable(&mut self, drawable: u64, z: u32)
        requires
            old(self).wf(),
        ensures
            final(self).wf(),
            final(self)@ == old(self)@.added(DrawEntry { id: drawable, z }),
            final(self).name_view() == old(self).name_view(),
    {
        self.new_drawables.push(DrawEntry { id: drawable, z });
    }

    /// Removes every entry of the drawable, realized or still pending.
    pub fn remove_drawable(&mut self, drawable: u64)
        requires
            old(self).wf(),
        ensures
            final(self).wf(),
            final(self)@ == old(self)@.removed(drawable),
            final(self).name_view() == old(self).name_view(),
    {
        let active = retain_other_ids(&self.drawables, drawable);
        let pending = retain_other_ids(&self.new_drawables, drawable);
        proof {
            lemma_without_id_keeps_z_order(self.drawables@, drawable);
        }
        self.drawables = active;
        self.new_drawables = pending;
    }

    /// The number of realized drawables.
    pub fn drawable_count(&self) -> (r: usize)
        ensures
            r == self@.active.len(),
    {
        self.drawables.len()
    }

    /// Realizes the pending drawables and says which to initialize and which
    /// to draw, in order.
    pub fn render(&mut self) -> (plan: DrawPlan)
        requires
            old(self).wf(),
        ensures
            final(self).wf(),
            final(self)@ == old(self)@.rendered(),
            plan.init@ == old(self)@.init_order(),
            plan.draw@ == old(self)@.draw_order(),
            z_sorted(final(self)@.active),
            final(self).name_view() == old(self).name_view(),
    {
        let ghost start = self@;
        let init = entry_ids(&self.new_drawables);
        let mut i: usize = 0;
        while i < self.new_drawables.len()
            invariant
                i <= self.new_drawables@.len(),
                self.new_drawables@ == start.pending,
                self.drawables@ == insert_all_by_z(start.active, start.pending.subrange(0, i as int)),
                z_sorted(self.drawables@),
                self.name@ == old(self).name@,
            decreases self.new_drawables@.len() - i,
        {
            let e = self.new_drawables[i];
            proof {
                lemma_insert_by_z_keeps_z_order(self.drawables@, e);
                assert(start.pending.subrange(0, i + 1).drop_last() =~= start.pending.subrange(0, i as int));
            }
            insert_entry(&mut self.drawables, e);
            i = i + 1;
        }
        proof {
            assert(start.pending.subrange(0, start.pending.len() as int) =~= start.pending);
        }
        self.new_drawables = Vec::new();
        let draw = entry_ids(&self.drawables);
        DrawPlan { init, draw }
    }

    /// The realized drawables to initialize when the pass is initialized
    /// outside the per-frame path, in draw order.
    pub fn init(&self) -> (r: Vec<u64>)
        ensures
            r@ == ids_of(self@.active),
    {
        entry_ids(&self.drawables)
    }
}

fn entry_ids(v: &Vec<DrawEntry>) -> (r: Vec<u64>)
    ensures
        r@ == ids_of(v@),
{
    let mut r: Vec<u64> = Vec::new();
    let mut i: usize = 0;
    while i < v.len()
        invariant
            i <= v@.len(),
            r@ == ids_of(v@.subrange(0, i as int)),
        decreases v@.len() - i,
    {
        r.push(v[i].id);
        i = i + 1;
        proof {
            assert(ids_of(v@.subrange(0, i as int)) =~= r@);
        }
    }
    proof {
        assert(v@.subrange(0, v@.len() as int) =~= v@);
    }
    r
}

fn retain_other_ids(v: &Vec<DrawEntry>, id: u64) -> (r: Vec<DrawEntry>)
    ensures
        r@ == without_id(v@, id),
{
    let mut r: Vec<DrawEntry> = Vec::new();
    let mut i: usize = 0;
    while i < v.len()
        invariant
            i <= v@.len(),
            r@ == without_id(v@.subrange(0, i as int), id),
        decreases v@.len() - i,
    {
        let e = v[i];
        proof {
            assert(v@.subrange(0, i + 1) =~= v@.subrange(0, i as int).push(e));
            v@.subrange(0, i as int).lemma_filter_push(e, |e: DrawEntry| e.id != id);
        }
        if e.id != id {
            r.push(e);
        }
        i = i + 1;
    }
    proof {
        assert(v@.subrange(0, v@.len() as int) =~= v@);
    }
    r
}

fn insert_entry(v: &mut Vec<DrawEntry>, e: DrawEntry)
    ensures
        final(v)@ == insert_by_z(old(v)@, e),
{
    let ghost s = v@;
    let mut j: usize = v.len();
    proof {
        assert(s.subrange(0, s.len() as int) =~= s);
        assert(s.subrange(s.len() as int, s.len() as int) + Seq::empty() =~= Seq::<DrawEntry>::empty());
        assert(insert_by_z(s, e) + Seq::<DrawEntry>::empty() =~= insert_by_z(s, e));
    }
    while j > 0 && v[j - 1].z > e.z
        invariant
            j <= v@.len(),
            v@ == s,
            insert_by_z(s, e) == insert_by_z(s.subrange(0, j as int), e) + s.subrange(
                j as int,
                s.len() as int,
            ),
        decreases j,
    {
        proof {
            let pre = s.subrange(0, j as int);
            assert(pre.drop_last() =~= s.subrange(0, j - 1));
            assert(insert_by_z(pre, e) == insert_by_z(s.subrange(0, j - 1), e).push(s[j - 1]));
            assert(insert_by_z(s.subrange(0, j - 1), e).push(s[j - 1]) + s.subrange(
                j as int,
                s.len() as int,
            ) =~= insert_by_z(s.subrange(0, j - 1), e) + s.subrange(j - 1, s.len() as int));
        }
        j = j - 1;
    }
    proof {
        let pre = s.subrange(0, j as int);
        assert(insert_by_z(pre, e) == pre.push(e));
        assert(pre.push(e) + s.subrange(j as int, s.len() as int) =~= s.insert(j as int, e));
    }
    v.insert(j, e);
}

/// Placing an entry by z keeps every entry and adds only that one.
pub proof fn lemma_insert_by_z_multiset(s: Seq<DrawEntry>, e: DrawEntry)
    ensures
        insert_by_z(s, e).to_multiset() == s.to_multiset().insert(e),
    decreases s.len(),
{
    broadcast use vstd::seq_lib::group_to_multiset_ensures;

    if s.len() == 0 || s.last().z <= e.z {
    } else {
        lemma_insert_by_z_multiset(s.drop_last(), e);
        assert(s.drop_last().push(s.last()) =~= s);
        assert(s.to_multiset() =~= s.drop_last().to_multiset().insert(s.last()));
        assert(insert_by_z(s, e).to_multiset() =~= s.to_multiset().insert(e));
    }
}

/// Placing an entry by z into a z-ordered sequence leaves it z-ordered.
pub proof fn lemma_insert_by_z_keeps_z_order(s: Seq<DrawEntry>, e: DrawEntry)
    requires
        z_sorted(s),
    ensures
        z_sorted(insert_by_z(s, e)),
    decreases s.len(),
{
    broadcast use vstd::seq_lib::group_to_multiset_ensures;

    if s.len() == 0 || s.last().z <= e.z {
    } else {
        let rest = s.drop_last();
        lemma_insert_by_z_keeps_z_order(rest, e);
        lemma_insert_by_z_multiset(rest, e);
        let r = insert_by_z(rest, e);
        assert forall|k: int| 0 <= k < r.len() implies r[k].z <= s.last().z by {
            assert(r.to_multiset().count(r[k]) > 0);
            if r[k] != e {
                assert(rest.to_multiset().count(r[k]) > 0);
                assert(rest.contains(r[k]));
                let m = choose|m: int| 0 <= m < rest.len() && rest[m] == r[k];
                assert(s[m] == rest[m]);
            }
        }
    }
}

/// Keeping the entries of other drawables leaves a z-ordered sequence z-ordered.
pub proof fn lemma_without_id_keeps_z_order(s: Seq<DrawEntry>, id: u64)
    requires
        z_sorted(s),
    ensures
        z_sorted(without_id(s, id)),
{
    let pred = |e: DrawEntry| e.id != id;
    let f = s.filter(pred);
    assert forall|i: int, j: int| 0 <= i < j < f.len() implies f[i].z <= f[j].z by {
        lemma_filter_index_mono(s, pred, i, j);
    }
}

proof fn lemma_filter_index_mono(
    s: Seq<DrawEntry>,
    pred: spec_fn(DrawEntry) -> bool,
    i: int,
    j: int,
)
    requires
        z_sorted(s),
        0 <= i < j < s.filter(pred).len(),
    ensures
        s.filter(pred)[i].z <= s.filter(pred)[j].z,
    decreases s.len(),
{
    reveal(Seq::filter);
    let rest = s.drop_last();
    let fr = rest.filter(pred);
    assert(z_sorted(rest));
    if pred(s.last()) && j == fr.len() {
        assert(fr.contains(fr[i]));
        rest.lemma_filter_contains_rev(pred, fr[i]);
        let m = choose|m: int| 0 <= m < rest.len() && rest[m] == fr[i];
        assert(s[m] == rest[m]);
    } else {
        lemma_filter_index_mono(rest, pred, i, j);
    }
}

proof fn lemma_insert_by_z_has_id(s: Seq<DrawEntry>, e: DrawEntry, id: u64)
    ensures
        has_id(insert_by_z(s, e), id) <==> (has_id(s, id) || e.id == id),
{
    broadcast use vstd::seq_lib::group_to_multiset_ensures;

    lemma_insert_by_z_multiset(s, e);
    let r = insert_by_z(s, e);
    if has_id(r, id) {
        let k = choose|k: int| 0 <= k < r.len() && r[k].id == id;
        assert(r.to_multiset().count(r[k]) > 0);
        if r[k] != e {
            assert(s.to_multiset().count(r[k]) > 0);
            assert(s.contains(r[k]));
        }
    }
    if has_id(s, id) {
        let k = choose|k: int| 0 <= k < s.len() && s[k].id == id;
        assert(s.to_multiset().count(s[k]) > 0);
        assert(r.to_multiset().count(s[k]) > 0);
        assert(r.contains(s[k]));
    }
    if e.id == id {
        assert(r.to_multiset().count(e) > 0);
        assert(r.contains(e));
    }
}

proof fn lemma_insert_all_by_z_has_id(s: Seq<DrawEntry>, p: Seq<DrawEntry>, id: u64)
    ensures
        has_id(insert_all_by_z(s, p), id) <==> (has_id(s, id) || has_id(p, id)),
    decreases p.len(),
{
    if p.len() > 0 {
        let rest = p.drop_last();
        lemma_insert_all_by_z_has_id(s, rest, id);
        lemma_insert_by_z_has_id(insert_all_by_z(s, rest), p.last(), id);
        if has_id(p, id) && !has_id(rest, id) {
            let k = choose|k: int| 0 <= k < p.len() && p[k].id == id;
            if k < p.len() - 1 {
                assert(rest[k] == p[k]);
            }
        }
        if has_id(rest, id) {
            let k = choose|k: int| 0 <= k < rest.len() && rest[k].id == id;
            assert(p[k] == rest[k]);
        }
    }
}

proof fn lemma_insert_all_by_z_keeps_z_order(s: Seq<DrawEntry>, p: Seq<DrawEntry>)
    requires
        z_sorted(s),
    ensures
        z_sorted(insert_all_by_z(s, p)),
    decreases p.len(),
{
    if p.len() > 0 {
        lemma_insert_all_by_z_keeps_z_order(s, p.drop_last());
        lemma_insert_by_z_keeps_z_order(insert_all_by_z(s, p.drop_last()), p.last());
    }
}

proof fn lemma_ids_of_contains(s: Seq<DrawEntry>, id: u64)
    ensures
        ids_of(s).contains(id) <==> has_id(s, id),
{
    if has_id(s, id) {
        let k = choose|k: int| 0 <= k < s.len() && s[k].id == id;
        assert(ids_of(s)[k] == id);
    }
    if ids_of(s).contains(id) {
        let k = choose|k: int| 0 <= k < ids_of(s).len() && ids_of(s)[k] == id;
        assert(s[k].id == id);
    }
}

proof fn lemma_without_id_lacks_id(s: Seq<DrawEntry>, id: u64)
    ensures
        !has_id(without_id(s, id), id),
{
    broadcast use vstd::seq_lib::group_filter_ensures;

}

/// After any sequence of `add_drawable` calls, whatever their z values, the
/// next render visits the realized drawables in non-decreasing z order.
pub proof fn lemma_render_visits_in_z_order(p: DrawPassModel, adds: Seq<DrawEntry>)
    requires
        p.wf(),
    ensures
        z_sorted(p.added_all(adds).rendered().active),
        p.added_all(adds).draw_order() == ids_of(p.added_all(adds).rendered().active),
{
    lemma_insert_all_by_z_keeps_z_order(p.active, p.pending + adds);
}

/// A drawable added after a render has taken its plan is not drawn by that
/// render, and is initialized and drawn by the next one.
pub proof fn lemma_added_drawable_waits_for_next_render(p: DrawPassModel, e: DrawEntry)
    requires
        !has_id(p.active, e.id),
        !has_id(p.pending, e.id),
    ensures
        !p.draw_order().contains(e.id),
        p.rendered().added(e).init_order().contains(e.id),
        p.rendered().added(e).draw_order().contains(e.id),
{
    lemma_insert_all_by_z_has_id(p.active, p.pending, e.id);
    lemma_ids_of_contains(p.rendered().active, e.id);
    let q = p.rendered().added(e);
    assert(q.pending =~= seq![e]);
    assert(q.pending[0] == e);
    assert(has_id(q.pending, e.id));
    lemma_ids_of_contains(q.pending, e.id);
    lemma_insert_all_by_z_has_id(q.active, q.pending, e.id);
    lemma_ids_of_contains(q.rendered().active, e.id);
}

/// A drawable removed from a pass is neither initialized nor drawn by the
/// next render, nor by the one after it.
pub proof fn lemma_removed_drawable_never_realized(p: DrawPassModel, id: u64)
    ensures
        !p.removed(id).init_order().contains(id),
        !p.removed(id).draw_order().contains(id),
        !p.removed(id).rendered().init_order().contains(id),
        !p.removed(id).rendered().draw_order().contains(id),
{
    let q = p.removed(id);
    lemma_without_id_lacks_id(p.active, id);
    lemma_without_id_lacks_id(p.pending, id);
    lemma_ids_of_contains(q.pending, id);
    lemma_insert_all_by_z_has_id(q.active, q.pending, id);
    lemma_ids_of_contains(q.rendered().active, id);
    let r = q.rendered();
    assert(r.pending.len() == 0);
    lemma_ids_of_contains(r.pending, id);
    lemma_insert_all_by_z_has_id(r.active, r.pending, id);
    lemma_ids_of_contains(r.rendered().active, id);
}

} // verus!
