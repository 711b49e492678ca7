//! The component lifecycle scheduler: a scope owns one component instance,
//! the live tree last applied for it, and a FIFO job queue drained by a
//! trampoline.  Every lifecycle transition — create, message, new
//! properties, destroy — is a job; jobs run strictly one at a time, in
//! enqueue order, and a job enqueued while another runs (a message a handler
//! sends to its own component) runs after it, never inside it.

use vstd::prelude::*;
use crate::vtree::{VNode, check_wf, node_count};
use crate::live::{IdGen, LiveNode, lemma_matches_implies_live_wf};
use crate::patch::{Patch, PatchV};
use crate::reconcile::{create_node, extends, reconcile};

verus! {

broadcast use vstd::std_specs::vec::group_vec_axioms;

/// The live-node identity of the mount location every scope renders under.
pub const MOUNT_ID: u64 = 0;

/// The patch attaches a node directly under the mount location, in first
/// position: what a successful first render emits for its root.
pub open spec fn is_mount_attach(p: PatchV) -> bool {
    p matches PatchV::AttachChild { parent, index, child: _ } && parent == MOUNT_ID && index == 0
}

/// One queued unit of work binding a scope to one pending lifecycle
/// transition.  It is created when an event fires or a message is sent and
/// consumed exactly once.
pub enum ComponentUpdate<M, P> {
    /// Create the component instance with its initial configuration and
    /// render for the first time.
    Create(P),
    /// Deliver a message to the component's update entry point.
    Message(M),
    /// Deliver a new external configuration.
    Properties(P),
    /// Drop the component instance; every later job is a no-op.
    Destroy,
}

/// What processing one job did: the job itself, whether the scope still
/// acted on it (a destroyed scope silently ignores jobs), and whether a
/// render was applied to the live tree.
pub struct JobRecord<M, P> {
    pub job: ComponentUpdate<M, P>,
    pub acted: bool,
    pub rendered: bool,
}

/// The handle through which a running component hands messages back to its
/// own scope.  Messages sent here are enqueued after the job that sent them:
/// the scheduler never re-enters a handler from a handler.
pub struct ComponentLink<M> {
    outbox: Vec<M>,
}

impl<M> ComponentLink<M> {
    /// The messages sent through this link, in order.
    pub closed spec fn sent(self) -> Seq<M> {
        self.outbox@
    }

    fn new() -> (r: ComponentLink<M>)
        ensures
            r.sent() =~= Seq::<M>::empty(),
    {
        ComponentLink { outbox: Vec::new() }
    }

    /// Send a message to this component's own update loop.
    pub fn send_self(&mut self, msg: M)
        ensures
            final(self).sent() == old(self).sent().push(msg),
    {
        self.outbox.push(msg);
    }

    fn into_messages(self) -> (r: Vec<M>)
        ensures
            r@ == self.sent(),
    {
        self.outbox
    }
}

/// The contract every stateful unit implements.
pub trait Component: Sized {
    /// The message type its update loop receives.
    type Message;

    /// Its external configuration.
    type Properties;

    /// Pure initialization from the initial configuration.
    fn create(props: Self::Properties, link: &mut ComponentLink<Self::Message>) -> Self;

    /// The one place state changes in response to a message; returns whether
    /// a re-render is warranted.
    fn update(&mut self, msg: Self::Message, link: &mut ComponentLink<Self::Message>) -> bool;

    /// Called when the external configuration changes; returns whether a
    /// re-render is warranted.
    fn change(&mut self, props: Self::Properties, link: &mut ComponentLink<Self::Message>) -> bool;

    /// One-time hook, called right after the first render produced a live
    /// root node, with that node's identity.
    fn on_mount(&mut self, root: u64) {
    }
}

/// Renders a declarative tree from the component's current state.
pub trait Renderable {
    /// Pure function from current state to a fresh declarative tree.
    fn view(&self) -> VNode;
}

/// A scope: the lifecycle handle owning one component instance, the live
/// tree last applied for it, its job queue, and the log of patches emitted
/// against the live tree.  The mount location carries live identity 0; the
/// first render attaches the component's root under it.
pub struct Scope<C: Component + Renderable> {
    component: Option<C>,
    live: Option<LiveNode>,
    created: bool,
    destroyed: bool,
    running: bool,
    queue: Vec<ComponentUpdate<C::Message, C::Properties>>,
    ids: IdGen,
    patches: Vec<Patch>,
    enq: Ghost<Seq<ComponentUpdate<C::Message, C::Properties>>>,
    done: Ghost<Seq<JobRecord<C::Message, C::Properties>>>,
}

impl<C: Component + Renderable> Scope<C> {
    /// Every job ever enqueued for this scope, in enqueue order.
    pub closed spec fn enqueued(self) -> Seq<ComponentUpdate<C::Message, C::Properties>> {
        self.enq@
    }

    /// A record for every job processed so far, in processing order.
    pub closed spec fn processed(self) -> Seq<JobRecord<C::Message, C::Properties>> {
        self.done@
    }

    /// The component instance, absent before creation and after
    /// destruction.
    pub closed spec fn spec_component(self) -> Option<C> {
        self.component
    }

    /// The live tree last applied, if a render has succeeded.
    pub closed spec fn spec_live(self) -> Option<LiveNode> {
        self.live
    }

    /// Every patch emitted against the live tree so far, in order.
    pub closed spec fn spec_patches(self) -> Seq<Patch> {
        self.patches@
    }

    /// The Create job has run.
    pub closed spec fn spec_created(self) -> bool {
        self.created
    }

    /// The scope is destroyed: its component is dropped and every further
    /// job is silently ignored.
    pub closed spec fn spec_destroyed(self) -> bool {
        self.destroyed
    }

    /// The state machine's well-formedness, preserved by every transition.
    spec fn state_wf(self) -> bool {
        &&& self.destroyed ==> self.component is None && self.created
        &&& self.created && !self.destroyed ==> self.component is Some
        &&& !self.created ==> self.component is None && !self.destroyed && self.done@.len() == 0
            && self.queue@.len() == 0 && self.live is None
        &&& self.live matches Some(l) ==> l.live_wf()
        &&& (exists|i: int|
            0 <= i < self.done@.len() && (#[trigger] self.done@[i]).rendered) ==> self.live is Some
    }

    /// Processed records and the queue partition the enqueued jobs, in
    /// order: what is done is a prefix of what was enqueued, and what is
    /// queued is the rest.
    spec fn order_wf(self) -> bool {
        &&& self.done@.len() + self.queue@.len() == self.enq@.len()
        &&& forall|i: int|
            0 <= i < self.done@.len() ==> (#[trigger] self.done@[i]).job == self.enq@[i]
        &&& forall|i: int|
            0 <= i < self.queue@.len() ==> #[trigger] self.queue@[i] == self.enq@[self.done@.len()
                + i]
        &&& forall|i: int| 0 <= i < self.queue@.len() ==> !((#[trigger] self.queue@[i]) is Create)
    }

    /// The scope's invariant between jobs: state machine well-formed, the
    /// queue fully drained, and every enqueued job processed in enqueue
    /// order.
    pub closed spec fn inv(self) -> bool {
        &&& self.state_wf()
        &&& self.order_wf()
        &&& self.queue@.len() == 0
        &&& !self.running
    }

    /// A fresh, unmounted scope.
    pub fn new() -> (s: Scope<C>)
        ensures
            s.inv(),
            !s.spec_created(),
            !s.spec_destroyed(),
            s.enqueued() =~= Seq::<ComponentUpdate<C::Message, C::Properties>>::empty(),
            s.processed() =~= Seq::<JobRecord<C::Message, C::Properties>>::empty(),
            s.spec_component() is None,
            s.spec_live() is None,
            s.spec_patches() =~= Seq::<Patch>::empty(),
    {
        Scope {
            component: None,
            live: None,
            created: false,
            destroyed: false,
            running: false,
            queue: Vec::new(),
            ids: IdGen::new(1),
            patches: Vec::new(),
            enq: Ghost(Seq::empty()),
            done: Ghost(Seq::empty()),
        }
    }

    /// Compute a fresh view and apply it to the live tree, emitting patches.
    /// A declared tree that is rejected at setup (duplicate sibling keys) or
    /// would exhaust node identities fails the render: the live tree stays
    /// in its last applied state and `false` is returned.
    fn render(&mut self) -> (ok: bool)
        requires
            old(self).state_wf(),
            old(self).created,
            !old(self).destroyed,
        ensures
            final(self).state_wf(),
            final(self).component == old(self).component,
            final(self).created == old(self).created,
            final(self).destroyed == old(self).destroyed,
            final(self).queue == old(self).queue,
            final(self).enq == old(self).enq,
            final(self).done == old(self).done,
            final(self).running == old(self).running,
            extends(final(self).patches@, old(self).patches@),
            ok ==> final(self).live is Some,
            ok && old(self).live is None ==> exists|k: int|
                old(self).patches@.len() <= k < final(self).patches@.len() && is_mount_attach(
                    (#[trigger] final(self).patches@[k])@,
                ),
            !ok ==> final(self).live == old(self).live && final(self).patches@ == old(self).patches@,
    {
        let tree = match &self.component {
            Some(c) => c.view(),
            None => {
                proof {
                    assert(false);
                }
                VNode::List(Vec::new())
            },
        };
        if !check_wf(&tree) {
            return false;
        }
        let n = match node_count(&tree) {
            Some(n) => n,
            None => {
                return false;
            },
        };
        if (n as u64) > self.ids.remaining() {
            return false;
        }
        let ghost was_fresh = self.live is None;
        let ghost mut attach_at: int = 0;
        let prev = self.live.take();
        let next_live = match prev {
            Some(l) => reconcile(MOUNT_ID, &l, &tree, &mut self.ids, &mut self.patches),
            None => {
                let fresh_live = create_node(&tree, &mut self.ids, &mut self.patches);
                let ghost mid = self.patches@;
                self.patches.push(
                    Patch::AttachChild { parent: MOUNT_ID, index: 0, child: fresh_live.id },
                );
                proof {
                    assert forall|i: int| 0 <= i < mid.len() implies self.patches@[i]
                        == #[trigger] mid[i] by {}
                    crate::reconcile::lemma_extends_trans(
                        self.patches@,
                        mid,
                        old(self).patches@,
                    );
                    assert(is_mount_attach(self.patches@[mid.len() as int]@));
                    attach_at = mid.len() as int;
                }
                fresh_live
            },
        };
        proof {
            lemma_matches_implies_live_wf(next_live, tree);
        }
        self.live = Some(next_live);
        proof {
            if was_fresh {
                assert(old(self).patches@.len() <= attach_at < self.patches@.len());
                assert(is_mount_attach(self.patches@[attach_at]@));
            }
        }
        true
    }

    /// Process one job: the heart of the run loop.  A destroyed scope lets
    /// the job pass as a silent no-op; otherwise the job drives the
    /// component contract, and a transition that asks for a render has the
    /// reconciler apply the fresh view.  Messages the component sent while
    /// handling the job are appended to the queue, after everything already
    /// enqueued.
    fn run_job(&mut self, job: ComponentUpdate<C::Message, C::Properties>)
        requires
            old(self).state_wf(),
            job is Create ==> !old(self).created,
            !(job is Create) ==> old(self).created,
        ensures
            final(self).state_wf(),
            final(self).created,
            final(self).running == old(self).running,
            final(self).done@.len() == old(self).done@.len() + 1,
            forall|i: int|
                0 <= i < old(self).done@.len() ==> #[trigger] final(self).done@[i] == old(self).done@[i],
            final(self).done@.last().job == job,
            final(self).done@.last().acted == !old(self).destroyed,
            final(self).queue@.len() >= old(self).queue@.len(),
            forall|i: int|
                0 <= i < old(self).queue@.len() ==> #[trigger] final(self).queue@[i] == old(self).queue@[i],
            forall|i: int|
                old(self).queue@.len() <= i < final(self).queue@.len() ==> !((#[trigger] final(self).queue@[i]) is Create),
            final(self).enq@.len() == old(self).enq@.len() + (final(self).queue@.len() - old(self).queue@.len()),
            forall|i: int|
                0 <= i < old(self).enq@.len() ==> #[trigger] final(self).enq@[i] == old(self).enq@[i],
            forall|i: int|
                old(self).queue@.len() <= i < final(self).queue@.len() ==> final(self).enq@[old(self).enq@.len() + (i - old(self).queue@.len())] == #[trigger] final(self).queue@[i],
            extends(final(self).patches@, old(self).patches@),
            old(self).destroyed ==> final(self).destroyed && final(self).component is None
                && final(self).live == old(self).live && final(self).patches@ == old(self).patches@
                && final(self).queue@ == old(self).queue@ && final(self).enq@ == old(self).enq@
                && !final(self).done@.last().rendered,
            job is Destroy ==> final(self).destroyed && final(self).component is None
                && final(self).queue@ == old(self).queue@ && final(self).enq@ == old(self).enq@
                && !final(self).done@.last().rendered,
            !(job is Destroy) && !old(self).destroyed ==> !final(self).destroyed && final(self).component is Some,
            final(self).done@.last().rendered ==> final(self).live is Some,
            !final(self).done@.last().rendered ==> final(self).patches@ == old(self).patches@
                && final(self).live == old(self).live,
            job is Create && final(self).done@.last().rendered ==> exists|k: int|
                old(self).patches@.len() <= k < final(self).patches@.len() && is_mount_attach(
                    (#[trigger] final(self).patches@[k])@,
                ),
    {
        let ghost gjob = job;
        if self.destroyed {
            proof {
                self.done@ = self.done@.push(
                    JobRecord { job: gjob, acted: false, rendered: false },
                );
            }
            return ;
        }
        match job {
            ComponentUpdate::Create(props) => {
                let mut link = ComponentLink::new();
                let comp = C::create(props, &mut link);
                self.component = Some(comp);
                self.created = true;
                let rendered = self.render();
                if rendered {
                    let root_id = match &self.live {
                        Some(l) => l.id,
                        None => 0,
                    };
                    match &mut self.component {
                        Some(c) => c.on_mount(root_id),
                        None => {},
                    }
                }
                self.enqueue_outbox(link);
                proof {
                    self.done@ = self.done@.push(JobRecord { job: gjob, acted: true, rendered });
                }
            },
            ComponentUpdate::Message(msg) => {
                let mut link = ComponentLink::new();
                let should = match &mut self.component {
                    Some(c) => c.update(msg, &mut link),
                    None => {
                        proof {
                            assert(false);
                        }
                        false
                    },
                };
                let rendered = if should {
                    self.render()
                } else {
                    false
                };
                self.enqueue_outbox(link);
                proof {
                    self.done@ = self.done@.push(JobRecord { job: gjob, acted: true, rendered });
                }
            },
            ComponentUpdate::Properties(props) => {
                let mut link = ComponentLink::new();
                let should = match &mut self.component {
                    Some(c) => c.change(props, &mut link),
                    None => {
                        proof {
                            assert(false);
                        }
                        false
                    },
                };
                let rendered = if should {
                    self.render()
                } else {
                    false
                };
                self.enqueue_outbox(link);
                proof {
                    self.done@ = self.done@.push(JobRecord { job: gjob, acted: true, rendered });
                }
            },
            ComponentUpdate::Destroy => {
                self.component = None;
                self.destroyed = true;
                proof {
                    self.done@ = self.done@.push(
                        JobRecord { job: gjob, acted: true, rendered: false },
                    );
                }
            },
        }
    }

    /// Append every message the job sent through its link to the queue, in
    /// the order they were sent.
    fn enqueue_outbox(&mut self, link: ComponentLink<C::Message>)
        ensures
            final(self).component == old(self).component,
            final(self).live == old(self).live,
            final(self).created == old(self).created,
            final(self).destroyed == old(self).destroyed,
            final(self).running == old(self).running,
            final(self).ids == old(self).ids,
            final(self).patches == old(self).patches,
            final(self).done == old(self).done,
            final(self).queue@.len() == old(self).queue@.len() + link.sent().len(),
            forall|i: int|
                0 <= i < old(self).queue@.len() ==> #[trigger] final(self).queue@[i] == old(self).queue@[i],
            forall|i: int|
                old(self).queue@.len() <= i < final(self).queue@.len() ==> !((#[trigger] final(self).queue@[i]) is Create),
            final(self).enq@.len() == old(self).enq@.len() + link.sent().len(),
            forall|i: int|
                0 <= i < old(self).enq@.len() ==> #[trigger] final(self).enq@[i] == old(self).enq@[i],
            forall|i: int|
                old(self).queue@.len() <= i < final(self).queue@.len() ==> final(self).enq@[old(self).enq@.len() + (i - old(self).queue@.len())] == #[trigger] final(self).queue@[i],
            link.sent().len() == 0 ==> final(self).queue@ == old(self).queue@ && final(self).enq@
                == old(self).enq@,
    {
        let mut rest = link.into_messages();
        let mut taken: usize = 0;
        let ghost all = rest@;
        proof {
            assert(all.len() == rest.len());
        }
        while rest.len() > 0
            invariant
                all.len() <= usize::MAX,
                taken + rest@.len() == all.len(),
                rest@ =~= all.skip(taken as int),
                self.component == old(self).component,
                self.live == old(self).live,
                self.created == old(self).created,
                self.destroyed == old(self).destroyed,
                self.running == old(self).running,
                self.ids == old(self).ids,
                self.patches == old(self).patches,
                self.done == old(self).done,
                self.queue@.len() == old(self).queue@.len() + taken,
                forall|i: int|
                    0 <= i < old(self).queue@.len() ==> #[trigger] self.queue@[i] == old(self).queue@[i],
                forall|i: int|
                    old(self).queue@.len() <= i < self.queue@.len() ==> !((#[trigger] self.queue@[i]) is Create),
                self.enq@.len() == old(self).enq@.len() + taken,
                forall|i: int|
                    0 <= i < old(self).enq@.len() ==> #[trigger] self.enq@[i] == old(self).enq@[i],
                forall|i: int|
                    old(self).queue@.len() <= i < self.queue@.len() ==> self.enq@[old(self).enq@.len() + (i - old(self).queue@.len())] == #[trigger] self.queue@[i],
            decreases rest@.len(),
        {
            let m = rest.remove(0);
            let ghost gm = m;
            self.queue.push(ComponentUpdate::Message(m));
            proof {
                self.enq@ = self.enq@.push(ComponentUpdate::Message(gm));
                assert(rest@ =~= all.skip(taken as int + 1));
            }
            taken = taken + 1;
        }
    }
}


impl<C: Component + Renderable> Scope<C> {
    /// The trampoline: run queued jobs strictly one at a time, in queue
    /// order, until the queue is empty.  A job enqueued while another runs
    /// is appended and picked up by this same loop — the loop is never
    /// entered twice — so chained sends cost queue entries, not stack
    /// frames.  A single burst is bounded by an astronomically large job
    /// budget; a program that exhausts it has a runaway trampoline, a fatal
    /// contract violation: the scope is destroyed and the rest of the queue
    /// is silenced.
    fn drain(&mut self)
        requires
            old(self).state_wf(),
            old(self).order_wf(),
            old(self).created,
        ensures
            final(self).state_wf(),
            final(self).order_wf(),
            final(self).created,
            final(self).queue@.len() == 0,
            final(self).running == old(self).running,
            final(self).done@.len() == final(self).enq@.len(),
            final(self).done@.len() >= old(self).done@.len() + old(self).queue@.len(),
            final(self).enq@.len() >= old(self).enq@.len(),
            forall|i: int|
                0 <= i < old(self).done@.len() ==> #[trigger] final(self).done@[i] == old(self).done@[i],
            forall|i: int|
                0 <= i < old(self).enq@.len() ==> #[trigger] final(self).enq@[i] == old(self).enq@[i],
            extends(final(self).patches@, old(self).patches@),
            old(self).queue@.len() > 0 && !old(self).destroyed ==> final(self).done@[old(self).done@.len() as int].acted,
            old(self).destroyed ==> final(self).destroyed && final(self).component is None
                && final(self).live == old(self).live && final(self).patches@ == old(self).patches@
                && final(self).enq@ == old(self).enq@ && (forall|i: int|
                old(self).done@.len() <= i < final(self).done@.len() ==> !(#[trigger] final(self).done@[i]).acted && !final(self).done@[i].rendered),
            (exists|i: int|
                old(self).done@.len() <= i < final(self).done@.len() && (#[trigger] final(self).done@[i]).job is Destroy) ==> final(self).destroyed,
            final(self).destroyed ==> old(self).destroyed || (exists|i: int|
                old(self).done@.len() <= i < final(self).done@.len() && (#[trigger] final(self).done@[i]).job is Destroy) || final(self).done@.len() >= old(self).done@.len()
                + u64::MAX,
            (forall|i: int|
                old(self).done@.len() <= i < final(self).done@.len() ==> !(#[trigger] final(self).done@[i]).rendered) ==> final(self).patches@ == old(self).patches@ && final(self).live
                == old(self).live,
    {
        let mut credit: u64 = u64::MAX;
        while self.queue.len() > 0 && credit > 0
            invariant
                self.state_wf(),
                self.order_wf(),
                self.created,
                self.running == old(self).running,
                self.done@.len() >= old(self).done@.len(),
                self.done@.len() + self.queue@.len() >= old(self).done@.len() + old(self).queue@.len(),
                self.done@.len() - old(self).done@.len() >= old(self).done@.len() + old(self).queue@.len() - self.done@.len() - self.queue@.len(),
                self.enq@.len() >= old(self).enq@.len(),
                forall|i: int|
                    0 <= i < old(self).done@.len() ==> #[trigger] self.done@[i] == old(self).done@[i],
                forall|i: int|
                    0 <= i < old(self).enq@.len() ==> #[trigger] self.enq@[i] == old(self).enq@[i],
                extends(self.patches@, old(self).patches@),
                old(self).queue@.len() > 0 && !old(self).destroyed && self.done@.len() > old(self).done@.len() ==> self.done@[old(self).done@.len() as int].acted,
                self.done@.len() == old(self).done@.len() ==> self.destroyed == old(self).destroyed,
                self.done@.len() >= old(self).done@.len() + (u64::MAX - credit),
                old(self).destroyed ==> self.destroyed && self.component is None && self.live
                    == old(self).live && self.patches@ == old(self).patches@ && self.enq@ == old(self).enq@ && (forall|i: int|
                    old(self).done@.len() <= i < self.done@.len() ==> !(#[trigger] self.done@[i]).acted
                        && !self.done@[i].rendered),
                (exists|i: int|
                    old(self).done@.len() <= i < self.done@.len() && (#[trigger] self.done@[i]).job is Destroy)
                    ==> self.destroyed,
                self.destroyed ==> old(self).destroyed || (exists|i: int|
                    old(self).done@.len() <= i < self.done@.len() && (#[trigger] self.done@[i]).job is Destroy)
                    || self.done@.len() >= old(self).done@.len() + u64::MAX,
                (forall|i: int|
                    old(self).done@.len() <= i < self.done@.len() ==> !(#[trigger] self.done@[i]).rendered)
                    ==> self.patches@ == old(self).patches@ && self.live == old(self).live,
            decreases credit,
        {
            let ghost pre = *self;
            let job = self.queue.remove(0);
            proof {
                assert forall|i: int|
                    0 <= i < self.queue@.len() implies #[trigger] self.queue@[i] == self.enq@[
                    self.done@.len() + 1 + i] by {
                    assert(pre.queue@[i + 1] == pre.enq@[pre.done@.len() + i + 1]);
                }
                assert(job == pre.enq@[pre.done@.len() as int]);
            }
            let ghost mid = *self;
            self.run_job(job);
            proof {
                assert forall|i: int|
                    0 <= i < self.done@.len() implies (#[trigger] self.done@[i]).job == self.enq@[i] by {
                    if i < mid.done@.len() {
                        assert(self.done@[i] == mid.done@[i]);
                    } else {
                        assert(i == mid.done@.len());
                        assert(self.done@.last().job == job);
                    }
                }
                assert forall|i: int|
                    0 <= i < self.queue@.len() implies #[trigger] self.queue@[i] == self.enq@[
                    self.done@.len() + i] by {
                    if i < mid.queue@.len() {
                        assert(self.queue@[i] == mid.queue@[i]);
                        assert(mid.queue@[i] == mid.enq@[mid.done@.len() + 1 + i]);
                        assert(self.enq@[mid.done@.len() + 1 + i] == mid.enq@[mid.done@.len() + 1
                            + i]);
                    } else {
                        assert(self.enq@[mid.enq@.len() + (i - mid.queue@.len())]
                            == self.queue@[i]);
                    }
                }
                if self.destroyed && !old(self).destroyed {
                    if mid.destroyed {
                        if exists|i: int|
                            old(self).done@.len() <= i < mid.done@.len() && (#[trigger] mid.done@[i]).job is Destroy {
                            let i = choose|i: int|
                                old(self).done@.len() <= i < mid.done@.len()
                                    && (#[trigger] mid.done@[i]).job is Destroy;
                            assert(self.done@[i] == mid.done@[i]);
                            assert(self.done@[i].job is Destroy);
                        }
                    } else {
                        assert(self.done@[mid.done@.len() as int].job is Destroy);
                    }
                }
                if forall|i: int|
                    old(self).done@.len() <= i < self.done@.len() ==> !(#[trigger] self.done@[i]).rendered {
                    assert forall|i: int|
                        old(self).done@.len() <= i < mid.done@.len() implies !(#[trigger] mid.done@[i]).rendered by {
                        assert(self.done@[i] == mid.done@[i]);
                        assert(!self.done@[i].rendered);
                    }
                    assert(!self.done@[mid.done@.len() as int].rendered);
                    assert(!self.done@.last().rendered);
                    assert(self.patches@ == mid.patches@ && self.live == mid.live);
                }
            }
            credit = credit - 1;
        }
        if self.queue.len() > 0 {
            // the fatal runaway case: silence what is left
            self.component = None;
            self.destroyed = true;
            while self.queue.len() > 0
                invariant
                    self.done@.len() > old(self).done@.len(),
                    self.state_wf(),
                    self.order_wf(),
                    self.created,
                    self.destroyed,
                    self.component is None,
                    self.running == old(self).running,
                        self.done@.len() >= old(self).done@.len(),
                    self.done@.len() + self.queue@.len() >= old(self).done@.len() + old(self).queue@.len(),
                    self.enq@.len() >= old(self).enq@.len(),
                    forall|i: int|
                        0 <= i < old(self).done@.len() ==> #[trigger] self.done@[i] == old(self).done@[i],
                    forall|i: int|
                        0 <= i < old(self).enq@.len() ==> #[trigger] self.enq@[i] == old(self).enq@[i],
                    extends(self.patches@, old(self).patches@),
                    old(self).queue@.len() > 0 && !old(self).destroyed && self.done@.len() > old(self).done@.len() ==> self.done@[old(self).done@.len() as int].acted,
                    old(self).destroyed ==> self.live == old(self).live && self.patches@ == old(self).patches@ && self.enq@ == old(self).enq@ && (forall|i: int|
                        old(self).done@.len() <= i < self.done@.len() ==> !(#[trigger] self.done@[i]).acted
                            && !self.done@[i].rendered),
                    self.done@.len() >= old(self).done@.len() + u64::MAX,
                    (forall|i: int|
                        old(self).done@.len() <= i < self.done@.len() ==> !(#[trigger] self.done@[i]).rendered)
                        ==> self.patches@ == old(self).patches@ && self.live == old(self).live,
                decreases self.queue@.len(),
            {
                let ghost pre = *self;
                let job = self.queue.remove(0);
                let ghost gjob = job;
                proof {
                    self.done@ = self.done@.push(
                        JobRecord { job: gjob, acted: false, rendered: false },
                    );
                    assert forall|i: int|
                        0 <= i < self.done@.len() implies (#[trigger] self.done@[i]).job
                        == self.enq@[i] by {
                        if i < pre.done@.len() {
                            assert(self.done@[i] == pre.done@[i]);
                        } else {
                            assert(gjob == pre.queue@[0]);
                            assert(pre.queue@[0] == pre.enq@[pre.done@.len() as int]);
                        }
                    }
                    assert forall|i: int|
                        0 <= i < self.queue@.len() implies #[trigger] self.queue@[i] == self.enq@[
                        self.done@.len() + i] by {
                        assert(pre.queue@[i + 1] == pre.enq@[pre.done@.len() + i + 1]);
                    }
                    if forall|i: int|
                        old(self).done@.len() <= i < self.done@.len() ==> !(#[trigger] self.done@[i]).rendered {
                        assert forall|i: int|
                            old(self).done@.len() <= i < pre.done@.len() implies !(#[trigger] pre.done@[i]).rendered by {
                            assert(self.done@[i] == pre.done@[i]);
                            assert(!self.done@[i].rendered);
                        }
                        assert(self.patches@ == pre.patches@ && self.live == pre.live);
                    }
                }
            }
        }
    }

    /// Mount this scope: run the Create job — instantiate the component
    /// from its initial configuration, render for the first time, call the
    /// one-time mounted hook — and drain whatever the component sent while
    /// being created.
    pub fn mount_in_place(&mut self, props: C::Properties)
        requires
            old(self).inv(),
            !old(self).spec_created(),
        ensures
            final(self).inv(),
            final(self).spec_created(),
            final(self).processed().len() == final(self).enqueued().len(),
            final(self).enqueued().len() > 0,
            final(self).processed()[0].job == ComponentUpdate::<
                C::Message,
                C::Properties,
            >::Create(props),
            final(self).processed()[0].acted,
            extends(final(self).spec_patches(), old(self).spec_patches()),
            final(self).spec_destroyed() ==> (exists|i: int|
                0 <= i < final(self).processed().len() && (#[trigger] final(self).processed()[i]).job is Destroy)
                || final(self).processed().len() >= u64::MAX,
            (exists|i: int|
                0 <= i < final(self).processed().len() && (#[trigger] final(self).processed()[i]).rendered)
                ==> final(self).spec_live() is Some,
            final(self).processed()[0].rendered ==> final(self).spec_live() is Some && (exists|k: int|
                old(self).spec_patches().len() <= k < final(self).spec_patches().len()
                    && is_mount_attach((#[trigger] final(self).spec_patches()[k])@)),
    {
        let ghost gprops = props;
        self.running = true;
        proof {
            self.enq@ = self.enq@.push(ComponentUpdate::Create(gprops));
        }
        self.run_job(ComponentUpdate::Create(props));
        proof {
            assert forall|i: int|
                0 <= i < self.done@.len() implies (#[trigger] self.done@[i]).job == self.enq@[i] by {
            }
            assert forall|i: int|
                0 <= i < self.queue@.len() implies #[trigger] self.queue@[i] == self.enq@[
                self.done@.len() + i] by {
                assert(self.enq@[1 + i] == self.queue@[i]);
            }
        }
        let ghost created_state = *self;
        self.drain();
        self.running = false;
        proof {
            crate::reconcile::lemma_extends_trans(
                self.patches@,
                created_state.patches@,
                old(self).patches@,
            );
            if created_state.done@[0].rendered {
                let k = choose|k: int|
                    old(self).patches@.len() <= k < created_state.patches@.len()
                        && is_mount_attach((#[trigger] created_state.patches@[k])@);
                assert(self.patches@[k] == created_state.patches@[k]);
                assert(is_mount_attach(self.patches@[k]@));
            }
        }
    }

    /// Send a message to the component: enqueue a Message job and run the
    /// queue.  A destroyed scope records the job and ignores it: no state is
    /// touched, no patch is emitted, nothing fails.
    pub fn send_message(&mut self, msg: C::Message)
        requires
            old(self).inv(),
            old(self).spec_created(),
        ensures
            final(self).inv(),
            final(self).spec_created(),
            old(self).spec_destroyed() ==> final(self).spec_destroyed(),
            final(self).processed().len() == final(self).enqueued().len(),
            final(self).enqueued().len() > old(self).enqueued().len(),
            forall|i: int|
                0 <= i < old(self).enqueued().len() ==> #[trigger] final(self).enqueued()[i] == old(self).enqueued()[i],
            forall|i: int|
                0 <= i < old(self).processed().len() ==> #[trigger] final(self).processed()[i]
                    == old(self).processed()[i],
            final(self).enqueued()[old(self).enqueued().len() as int] == ComponentUpdate::<
                C::Message,
                C::Properties,
            >::Message(msg),
            final(self).processed()[old(self).processed().len() as int].job == ComponentUpdate::<
                C::Message,
                C::Properties,
            >::Message(msg),
            !old(self).spec_destroyed() ==> final(self).processed()[old(self).processed().len() as int].acted,
            old(self).spec_destroyed() ==> final(self).spec_component() == old(self).spec_component() && final(self).spec_live() == old(self).spec_live() && final(self).spec_patches() == old(self).spec_patches() && final(self).enqueued() == old(self).enqueued().push(
                ComponentUpdate::<C::Message, C::Properties>::Message(msg),
            ) && final(self).processed().len() == old(self).processed().len() + 1 && !final(self).processed().last().acted && !final(self).processed().last().rendered,
            extends(final(self).spec_patches(), old(self).spec_patches()),
            !old(self).spec_destroyed() ==> !final(self).spec_destroyed() || (exists|i: int|
                old(self).processed().len() <= i < final(self).processed().len() && (#[trigger] final(self).processed()[i]).job is Destroy)
                || final(self).processed().len() >= u64::MAX,
            (exists|i: int|
                0 <= i < final(self).processed().len() && (#[trigger] final(self).processed()[i]).rendered)
                ==> final(self).spec_live() is Some,
            (forall|i: int|
                old(self).processed().len() <= i < final(self).processed().len() ==> !(#[trigger] final(self).processed()[i]).rendered)
                ==> final(self).spec_patches() == old(self).spec_patches() && final(self).spec_live() == old(self).spec_live(),
    {
        let ghost gmsg = msg;
        self.running = true;
        proof {
            self.enq@ = self.enq@.push(ComponentUpdate::Message(gmsg));
        }
        self.queue.push(ComponentUpdate::Message(msg));
        self.drain();
        self.running = false;
    }

    /// Deliver a new external configuration: enqueue a Properties job and
    /// run the queue.  A destroyed scope ignores it.
    pub fn send_properties(&mut self, props: C::Properties)
        requires
            old(self).inv(),
            old(self).spec_created(),
        ensures
            final(self).inv(),
            final(self).spec_created(),
            old(self).spec_destroyed() ==> final(self).spec_destroyed(),
            final(self).processed().len() == final(self).enqueued().len(),
            final(self).enqueued().len() > old(self).enqueued().len(),
            forall|i: int|
                0 <= i < old(self).enqueued().len() ==> #[trigger] final(self).enqueued()[i] == old(self).enqueued()[i],
            forall|i: int|
                0 <= i < old(self).processed().len() ==> #[trigger] final(self).processed()[i]
                    == old(self).processed()[i],
            final(self).enqueued()[old(self).enqueued().len() as int] == ComponentUpdate::<
                C::Message,
                C::Properties,
            >::Properties(props),
            final(self).processed()[old(self).processed().len() as int].job == ComponentUpdate::<
                C::Message,
                C::Properties,
            >::Properties(props),
            !old(self).spec_destroyed() ==> final(self).processed()[old(self).processed().len() as int].acted,
            old(self).spec_destroyed() ==> final(self).spec_component() == old(self).spec_component() && final(self).spec_live() == old(self).spec_live() && final(self).spec_patches() == old(self).spec_patches(),
            extends(final(self).spec_patches(), old(self).spec_patches()),
            !old(self).spec_destroyed() ==> !final(self).spec_destroyed() || (exists|i: int|
                old(self).processed().len() <= i < final(self).processed().len() && (#[trigger] final(self).processed()[i]).job is Destroy)
                || final(self).processed().len() >= u64::MAX,
            (exists|i: int|
                0 <= i < final(self).processed().len() && (#[trigger] final(self).processed()[i]).rendered)
                ==> final(self).spec_live() is Some,
            (forall|i: int|
                old(self).processed().len() <= i < final(self).processed().len() ==> !(#[trigger] final(self).processed()[i]).rendered)
                ==> final(self).spec_patches() == old(self).spec_patches() && final(self).spec_live() == old(self).spec_live(),
    {
        let ghost gprops = props;
        self.running = true;
        proof {
            self.enq@ = self.enq@.push(ComponentUpdate::Properties(gprops));
        }
        self.queue.push(ComponentUpdate::Properties(props));
        self.drain();
        self.running = false;
    }

    /// Destroy the scope: enqueue a Destroy job and run the queue.  The
    /// component instance is dropped; every job sent afterwards is a silent
    /// no-op.
    pub fn destroy(&mut self)
        requires
            old(self).inv(),
            old(self).spec_created(),
        ensures
            final(self).inv(),
            final(self).spec_created(),
            final(self).spec_destroyed(),
            final(self).spec_component() is None,
            final(self).processed().len() == final(self).enqueued().len(),
            final(self).enqueued().len() > old(self).enqueued().len(),
            forall|i: int|
                0 <= i < old(self).enqueued().len() ==> #[trigger] final(self).enqueued()[i] == old(self).enqueued()[i],
            forall|i: int|
                0 <= i < old(self).processed().len() ==> #[trigger] final(self).processed()[i]
                    == old(self).processed()[i],
            final(self).enqueued()[old(self).enqueued().len() as int] == ComponentUpdate::<
                C::Message,
                C::Properties,
            >::Destroy,
            final(self).processed().len() == old(self).processed().len() + 1,
            final(self).spec_patches() == old(self).spec_patches(),
            final(self).spec_live() == old(self).spec_live(),
    {
        self.running = true;
        proof {
            self.enq@ = self.enq@.push(ComponentUpdate::Destroy);
        }
        // destroying calls no component method, so nothing can be enqueued
        // while it runs: the job is processed directly
        self.run_job(ComponentUpdate::Destroy);
        proof {
            assert forall|i: int|
                0 <= i < self.done@.len() implies (#[trigger] self.done@[i]).job == self.enq@[i] by {
            }
        }
        self.running = false;
    }

    /// Whether the scope has been destroyed.
    pub fn is_destroyed(&self) -> (r: bool)
        ensures
            r == self.spec_destroyed(),
    {
        self.destroyed
    }

    /// The component instance, for inspection.
    pub fn state(&self) -> (r: &Option<C>)
        ensures
            *r == self.spec_component(),
    {
        &self.component
    }

    /// The live tree last applied.
    pub fn live_root(&self) -> (r: &Option<LiveNode>)
        ensures
            *r == self.spec_live(),
    {
        &self.live
    }

    /// Every patch emitted against the live tree so far, in order.
    pub fn patch_log(&self) -> (r: &Vec<Patch>)
        ensures
            r@ == self.spec_patches(),
    {
        &self.patches
    }

}

/// Law: jobs run in exactly the order they were enqueued.  At rest, every
/// enqueued job has been processed, and the record at each position is the
/// job enqueued at that position — so for two messages sent to the same
/// scope, the first is handled, and its render applied, before the second
/// is looked at.
pub proof fn lemma_processing_order<C: Component + Renderable>(s: Scope<C>)
    requires
        s.inv(),
    ensures
        s.processed().len() == s.enqueued().len(),
        forall|i: int|
            0 <= i < s.processed().len() ==> (#[trigger] s.processed()[i]).job == s.enqueued()[i],
{
}

} // verus!
