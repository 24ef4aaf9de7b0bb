pub mod primary_draw_pass;

use vstd::prelude::*;

verus! {

/// One step of a pipeline render, in the order the steps are carried out.
#[derive(Clone, Copy, Debug, PartialEq, Eq, Structural)]
pub enum PipelineStep {
    /// Create the global bind group's layout and group.
    InitGlobalBindGroup,
    /// Initialize the pass at this position with the global layout.
    InitPass(usize),
    /// Refresh the global bind group's per-frame contents.
    PreRender,
    /// Render the pass at this position.
    RenderPass(usize),
}

/// Steps `InitPass(0)`, ..., `InitPass(n - 1)`.
pub open spec fn init_pass_steps(n: nat) -> Seq<PipelineStep> {
    Seq::new(n, |k: int| PipelineStep::InitPass(k as usize))
}

/// Steps `RenderPass(0)`, ..., `RenderPass(n - 1)`.
pub open spec fn render_pass_steps(n: nat) -> Seq<PipelineStep> {
    Seq::new(n, |k: int| PipelineStep::RenderPass(k as usize))
}

/// The steps of one render of a pipeline with `n` passes: the one-time
/// initialization when it has not run yet, then the per-frame refresh and
/// every pass in the order it was added.
pub open spec fn render_steps(initialized: bool, n: nat) -> Seq<PipelineStep> {
    let per_frame = seq![PipelineStep::PreRender] + render_pass_steps(n);
    if initialized {
        per_frame
    } else {
        seq![PipelineStep::InitGlobalBindGroup] + init_pass_steps(n) + per_frame
    }
}

/// The steps of `count` consecutive renders.
pub open spec fn repeated_render_steps(initialized: bool, n: nat, count: nat) -> Seq<PipelineStep>
    decreases count,
{
    if count == 0 {
        Seq::empty()
    } else {
        repeated_render_steps(initialized, n, (count - 1) as nat) + render_steps(
            initialized || count > 1,
            n,
        )
    }
}

/// How many times `step` occurs in `s`.
pub open spec fn occurrences(s: Seq<PipelineStep>, step: PipelineStep) -> nat
    decreases s.len(),
{
    if s.len() == 0 {
        0
    } else {
        occurrences(s.drop_last(), step) + if s.last() == step {
            1nat
        } else {
            0nat
        }
    }
}

/// An ordered sequence of render passes sharing one global bind group, which
/// is initialized on the first render.
pub struct DefaultRenderPipeline {
    pass_count: usize,
    initialized: bool,
    name: String,
}

impl DefaultRenderPipeline {
    pub closed spec fn pass_count_view(&self) -> nat {
        self.pass_count as nat
    }

    pub closed spec fn initialized_view(&self) -> bool {
        self.initialized
    }

    pub closed spec fn name_view(&self) -> Seq<char> {
        self.name@
    }

    /// A pipeline with no passes, not yet initialized.
    pub fn new(name: &str) -> (r: DefaultRenderPipeline)
        ensures
            r.pass_count_view() == 0,
            !r.initialized_view(),
            r.name_view() == name@,
    {
        DefaultRenderPipeline { pass_count: 0, initialized: false, name: name.to_owned() }
    }

    pub fn get_name(&self) -> (r: &str)
        ensures
            r@ == self.name_view(),
    {
        self.name.as_str()
    }

    pub fn is_initialized(&self) -> (r: bool)
        ensures
            r == self.initialized_view(),
    {
        self.initialized
    }

    pub fn pass_count(&self) -> (r: usize)
        ensures
            r == self.pass_count_view(),
    {
        self.pass_count
    }

    /// Appends a pass; it renders after every pass added before it. Returns
    /// its position.
    pub fn add_render_pass(&mut self) -> (slot: usize)
        requires
            old(self).pass_count_view() < usize::MAX,
        ensures
            slot == old(self).pass_count_view(),
            final(self).pass_count_view() == old(self).pass_count_view() + 1,
            final(self).initialized_view() == old(self).initialized_view(),
            final(self).name_view() == old(self).name_view(),
    {
        let slot = self.pass_count;
        self.pass_count = self.pass_count + 1;
        slot
    }

    /// The steps of one render. The first render also initializes the global
    /// bind group and every pass; later ones only refresh and render.
    pub fn render(&mut self) -> (steps: Vec<PipelineStep>)
        ensures
            steps@ == render_steps(old(self).initialized_view(), old(self).pass_count_view()),
            final(self).initialized_view(),
            final(self).pass_count_view() == old(self).pass_count_view(),
            final(self).name_view() == old(self).name_view(),
    {
        let mut steps: Vec<PipelineStep> = Vec::new();
        if !self.initialized {
            steps.push(PipelineStep::InitGlobalBindGroup);
            let mut k: usize = 0;
            while k < self.pass_count
                invariant
                    k <= self.pass_count,
                    steps@ == seq![PipelineStep::InitGlobalBindGroup] + init_pass_steps(k as nat),
                decreases self.pass_count - k,
            {
                steps.push(PipelineStep::InitPass(k));
                k = k + 1;
                proof {
                    assert(steps@ =~= seq![PipelineStep::InitGlobalBindGroup] + init_pass_steps(
                        k as nat,
                    ));
                }
            }
            self.initialized = true;
        }
        let ghost before = steps@;
        steps.push(PipelineStep::PreRender);
        let mut k: usize = 0;
        while k < self.pass_count
            invariant
                k <= self.pass_count,
                steps@ == before + seq![PipelineStep::PreRender] + render_pass_steps(k as nat),
            decreases self.pass_count - k,
        {
            steps.push(PipelineStep::RenderPass(k));
            k = k + 1;
            proof {
                assert(steps@ =~= before + seq![PipelineStep::PreRender] + render_pass_steps(
                    k as nat,
                ));
            }
        }
        proof {
            assert(steps@ =~= render_steps(old(self).initialized, old(self).pass_count as nat));
        }
        steps
    }
}

proof fn lemma_occurrences_append(a: Seq<PipelineStep>, b: Seq<PipelineStep>, step: PipelineStep)
    ensures
        occurrences(a + b, step) == occurrences(a, step) + occurrences(b, step),
    decreases b.len(),
{
    if b.len() == 0 {
        assert(a + b =~= a);
    } else {
        lemma_occurrences_append(a, b.drop_last(), step);
        assert((a + b).drop_last() =~= a + b.drop_last());
    }
}

proof fn lemma_occurrences_absent(s: Seq<PipelineStep>, step: PipelineStep)
    requires
        !s.contains(step),
    ensures
        occurrences(s, step) == 0,
    decreases s.len(),
{
    if s.len() > 0 {
        assert(s.last() == s[s.len() - 1]);
        assert forall|i: int| 0 <= i < s.drop_last().len() implies s.drop_last()[i] != step by {
            assert(s.drop_last()[i] == s[i]);
        }
        lemma_occurrences_absent(s.drop_last(), step);
    }
}

proof fn lemma_occurrences_once(s: Seq<PipelineStep>, k: int, step: PipelineStep)
    requires
        0 <= k < s.len(),
        s[k] == step,
        forall|i: int| 0 <= i < s.len() && i != k ==> s[i] != step,
    ensures
        occurrences(s, step) == 1,
    decreases s.len(),
{
    if k == s.len() - 1 {
        assert forall|i: int| 0 <= i < s.drop_last().len() implies s.drop_last()[i] != step by {
            assert(s.drop_last()[i] == s[i]);
        }
        lemma_occurrences_absent(s.drop_last(), step);
    } else {
        assert(s.drop_last()[k] == s[k]);
        assert forall|i: int|
            0 <= i < s.drop_last().len() && i != k implies s.drop_last()[i] != step by {
            assert(s.drop_last()[i] == s[i]);
        }
        lemma_occurrences_once(s.drop_last(), k, step);
    }
}

/// Over any number of consecutive renders of a pipeline that starts
/// uninitialized, the global bind group is initialized exactly once, and so is
/// each pass.
pub proof fn lemma_pipeline_initializes_once(n: nat, count: nat, pass: usize)
    requires
        count >= 1,
        pass < n,
        n <= usize::MAX,
    ensures
        occurrences(
            repeated_render_steps(false, n, count),
            PipelineStep::InitGlobalBindGroup,
        ) == 1,
        occurrences(repeated_render_steps(false, n, count), PipelineStep::InitPass(pass)) == 1,
    decreases count,
{
    let later = render_steps(true, n);
    assert forall|i: int| 0 <= i < later.len() implies later[i] != PipelineStep::InitGlobalBindGroup
        && later[i] != PipelineStep::InitPass(pass) by {
        if i > 0 {
            assert(later[i] == render_pass_steps(n)[i - 1]);
        }
    }
    lemma_occurrences_absent(later, PipelineStep::InitGlobalBindGroup);
    lemma_occurrences_absent(later, PipelineStep::InitPass(pass));
    if count == 1 {
        let first = render_steps(false, n);
        assert(repeated_render_steps(false, n, 0) =~= Seq::<PipelineStep>::empty());
        assert(repeated_render_steps(false, n, 1) =~= first);
        assert(first[0] == PipelineStep::InitGlobalBindGroup);
        assert forall|i: int| 0 <= i < first.len() && i != 0 implies first[i]
            != PipelineStep::InitGlobalBindGroup by {
            if 1 <= i < n + 1 {
                assert(first[i] == init_pass_steps(n)[i - 1]);
            } else if i > n + 1 {
                assert(first[i] == render_pass_steps(n)[i - n - 2]);
            }
        }
        lemma_occurrences_once(first, 0, PipelineStep::InitGlobalBindGroup);
        assert(first[pass + 1] == PipelineStep::InitPass(pass));
        assert forall|i: int| 0 <= i < first.len() && i != pass + 1 implies first[i]
            != PipelineStep::InitPass(pass) by {
            if 1 <= i < n + 1 {
                assert(first[i] == init_pass_steps(n)[i - 1]);
                assert(init_pass_steps(n)[i - 1] == PipelineStep::InitPass((i - 1) as usize));
            } else if i > n + 1 {
                assert(first[i] == render_pass_steps(n)[i - n - 2]);
            }
        }
        lemma_occurrences_once(first, pass + 1, PipelineStep::InitPass(pass));
    } else {
        lemma_pipeline_initializes_once(n, (count - 1) as nat, pass);
        let prev = repeated_render_steps(false, n, (count - 1) as nat);
        lemma_occurrences_append(prev, later, PipelineStep::InitGlobalBindGroup);
        lemma_occurrences_append(prev, later, PipelineStep::InitPass(pass));
    }
}

/// A compute pass: a list of tasks that run, in the order they were added,
/// once the pass has been initialized.
pub struct ComputePass {
    task_count: usize,
    initialized: bool,
    name: String,
}

/// Positions `0`, ..., `n - 1`.
pub open spec fn positions(n: nat) -> Seq<usize> {
    Seq::new(n, |k: int| k as usize)
}

fn position_list(n: usize) -> (r: Vec<usize>)
    ensures
        r@ == positions(n as nat),
{
    let mut r: Vec<usize> = Vec::new();
    let mut k: usize = 0;
    while k < n
        invariant
            k <= n,
            r@ == positions(k as nat),
        decreases n - k,
    {
        r.push(k);
        k = k + 1;
        proof {
            assert(r@ =~= positions(k as nat));
        }
    }
    r
}

impl ComputePass {
    pub closed spec fn task_count_view(&self) -> nat {
        self.task_count as nat
    }

    pub closed spec fn initialized_view(&self) -> bool {
        self.initialized
    }

    pub closed spec fn name_view(&self) -> Seq<char> {
        self.name@
    }

    /// A pass with no tasks; the name shows in diagnostics.
    pub fn new(name: &str) -> (r: ComputePass)
        ensures
            r.task_count_view() == 0,
            !r.initialized_view(),
            r.name_view() == name@,
    {
        ComputePass { task_count: 0, initialized: false, name: name.to_owned() }
    }

    pub fn get_name(&self) -> (r: &str)
        ensures
            r@ == self.name_view(),
    {
        self.name.as_str()
    }

    pub fn is_initialized(&self) -> (r: bool)
        ensures
            r == self.initialized_view(),
    {
        self.initialized
    }

    /// Appends a task; returns its position.
    pub fn add_task(&mut self) -> (slot: usize)
        requires
            old(self).task_count_view() < usize::MAX,
        ensures
            slot == old(self).task_count_view(),
            final(self).task_count_view() == old(self).task_count_view() + 1,
            final(self).initialized_view() == old(self).initialized_view(),
            final(self).name_view() == old(self).name_view(),
    {
        let slot = self.task_count;
        self.task_count = self.task_count + 1;
        slot
    }

    /// Marks the pass initialized; returns the tasks to initialize, in order.
    pub fn init(&mut self) -> (tasks: Vec<usize>)
        ensures
            tasks@ == positions(old(self).task_count_view()),
            final(self).initialized_view(),
            final(self).task_count_view() == old(self).task_count_view(),
            final(self).name_view() == old(self).name_view(),
    {
        let tasks = position_list(self.task_count);
        self.initialized = true;
        tasks
    }

    /// The tasks to run this frame, in the order they were added.
    pub fn render(&self) -> (tasks: Vec<usize>)
        requires
            self.initialized_view(),
        ensures
            tasks@ == positions(self.task_count_view()),
    {
        position_list(self.task_count)
    }
}

} // verus!
