use crate::movement::Movement;
use vstd::prelude::*;

verus! {

/// The token of a rigid body: the slot and the generation under which the kernel's arena
/// holds it.
pub type BodyHandle = (usize, u64);

/// The token of a collider, of the same shape as [`BodyHandle`].
pub type ColliderHandle = (usize, u64);

/// The tokens that the kernel issued when it created the objects of one entity.
#[derive(Clone, Copy, Debug)]
pub struct KernelHandles {
    pub collider_handle: ColliderHandle,
    pub body_handle: BodyHandle,
    pub beam_handle: Option<ColliderHandle>,
}

/// One operation that the owner of the kernel has to perform on the registry's behalf.
#[derive(Clone, Copy, Debug, PartialEq, Eq)]
pub enum KernelCommand {
    /// Destroy the collider.
    RemoveCollider(ColliderHandle),
    /// Destroy the body.
    RemoveBody(BodyHandle),
    /// Wake the body, whatever its energy.
    Activate(BodyHandle),
    /// Add one tick's acceleration along the movement input to the body's linear
    /// velocity, and leave its angular velocity alone.
    Accelerate(BodyHandle, Movement),
    /// Overwrite the body's velocity with the caller's target.
    SetVelocity(BodyHandle),
    /// Overwrite the collider's pose with the caller's target.
    SetPosition(ColliderHandle),
    /// Advance the simulation by one fixed timestep.
    Advance,
}

impl KernelCommand {
    /// Whether the command creates or destroys nothing and does not advance time.
    pub open spec fn touches_state_only(self) -> bool {
        match self {
            KernelCommand::Activate(_) => true,
            KernelCommand::Accelerate(_, _) => true,
            KernelCommand::SetVelocity(_) => true,
            KernelCommand::SetPosition(_) => true,
            _ => false,
        }
    }
}

/// What the registry needs to know of a kernel: which objects are alive in it, how often
/// it was advanced, and how it was pushed.
pub struct KernelModel {
    /// The bodies that exist.
    pub bodies: Set<BodyHandle>,
    /// The colliders that exist.
    pub colliders: Set<ColliderHandle>,
    /// How many timesteps the simulation was advanced by.
    pub ticks: nat,
    /// For each body that was pushed, the sum of the directions it was pushed along.
    pub pushes: Map<BodyHandle, (int, int)>,
}

impl KernelModel {
    /// The sum of the directions along which the body was pushed.
    pub open spec fn pushed(self, body: BodyHandle) -> (int, int) {
        if self.pushes.contains_key(body) {
            self.pushes[body]
        } else {
            (0, 0)
        }
    }

    /// The kernel after it created the objects of one entity.
    pub open spec fn create(self, handles: KernelHandles) -> Self {
        KernelModel {
            bodies: self.bodies.insert(handles.body_handle),
            colliders: match handles.beam_handle {
                Some(beam) => self.colliders.insert(handles.collider_handle).insert(beam),
                None => self.colliders.insert(handles.collider_handle),
            },
            ticks: self.ticks,
            pushes: self.pushes,
        }
    }

    /// The kernel after it performed the command.
    pub open spec fn apply(self, command: KernelCommand) -> Self {
        match command {
            KernelCommand::RemoveCollider(collider) => KernelModel {
                bodies: self.bodies,
                colliders: self.colliders.remove(collider),
                ticks: self.ticks,
                pushes: self.pushes,
            },
            KernelCommand::RemoveBody(body) => KernelModel {
                bodies: self.bodies.remove(body),
                colliders: self.colliders,
                ticks: self.ticks,
                pushes: self.pushes,
            },
            KernelCommand::Accelerate(body, movement) => KernelModel {
                bodies: self.bodies,
                colliders: self.colliders,
                ticks: self.ticks,
                pushes: self.pushes.insert(
                    body,
                    (
                        self.pushed(body).0 + movement.spec_components().0,
                        self.pushed(body).1 + movement.spec_components().1,
                    ),
                ),
            },
            KernelCommand::Advance => KernelModel {
                bodies: self.bodies,
                colliders: self.colliders,
                ticks: self.ticks + 1,
                pushes: self.pushes,
            },
            KernelCommand::Activate(_) => self,
            KernelCommand::SetVelocity(_) => self,
            KernelCommand::SetPosition(_) => self,
        }
    }

    /// The kernel after it performed the commands, first to last.
    pub open spec fn run(self, commands: Seq<KernelCommand>) -> Self
        decreases commands.len(),
    {
        if commands.len() == 0 {
            self
        } else {
            self.run(commands.drop_last()).apply(commands.last())
        }
    }
}

/// Performing two lists of commands one after the other is performing their concatenation.
pub proof fn lemma_run_concat(kernel: KernelModel, first: Seq<KernelCommand>, second: Seq<KernelCommand>)
    ensures
        kernel.run(first + second) == kernel.run(first).run(second),
    decreases second.len(),
{
    if second.len() == 0 {
        assert(first + second =~= first);
    } else {
        lemma_run_concat(kernel, first, second.drop_last());
        assert((first + second).drop_last() =~= first + second.drop_last());
        assert((first + second).last() == second.last());
    }
}

/// Commands that create and destroy nothing leave the set of live objects and the clock
/// as they were.
pub proof fn lemma_run_keeps_objects(kernel: KernelModel, commands: Seq<KernelCommand>)
    requires
        forall|i: int| 0 <= i < commands.len() ==> (#[trigger] commands[i]).touches_state_only(),
    ensures
        kernel.run(commands).bodies == kernel.bodies,
        kernel.run(commands).colliders == kernel.colliders,
        kernel.run(commands).ticks == kernel.ticks,
    decreases commands.len(),
{
    if commands.len() > 0 {
        lemma_run_keeps_objects(kernel, commands.drop_last());
        assert(commands.last() == commands[commands.len() - 1]);
    }
}

/// A push along no direction is no push: it leaves what was pushed into every body as it
/// was.
pub proof fn lemma_stop_pushes_nothing(kernel: KernelModel, body: BodyHandle, other: BodyHandle)
    ensures
        kernel.apply(KernelCommand::Accelerate(body, Movement::Stop)).pushed(other)
            == kernel.pushed(other),
        kernel.apply(KernelCommand::Accelerate(body, Movement::Stop)).bodies == kernel.bodies,
        kernel.apply(KernelCommand::Accelerate(body, Movement::Stop)).colliders
            == kernel.colliders,
        kernel.apply(KernelCommand::Accelerate(body, Movement::Stop)).ticks == kernel.ticks,
{
}

/// `Stop` is the one movement input that has no direction.
pub proof fn lemma_only_stop_stands_still(movement: Movement)
    ensures
        movement.spec_components() == (0int, 0int) <==> movement == Movement::Stop,
        -1 <= movement.spec_components().0 <= 1,
        -1 <= movement.spec_components().1 <= 1,
{
}

} // verus!
