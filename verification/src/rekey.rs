//! How a rekeyed header and a rekeyed index replace the old ones together.
//!
//! Both are first written under other names. A marker then says that they are
//! complete; from there on they are moved into place, and the marker goes last.
//! Whoever finds the marker completes the move, and whoever finds files without
//! it throws them away.

use vstd::prelude::*;

verus! {

/// One change to the directory of a volume.
#[derive(Clone, Copy, Debug, PartialEq, Eq, Structural)]
pub enum RekeyStep {
    /// Write the new header under its other name.
    WriteHeader,
    /// Write the new index under its other name.
    WriteIndex,
    /// Write the marker.
    WriteMarker,
    /// Move the new header into place.
    MoveHeader,
    /// Move the new index into place.
    MoveIndex,
    /// Remove the marker.
    RemoveMarker,
    /// Throw away a new header that was left under its other name.
    DropHeader,
    /// Throw away a new index that was left under its other name.
    DropIndex,
}

/// What the directory of a volume holds.
#[derive(Clone, Copy, Debug, PartialEq, Eq, Structural)]
pub struct Disk {
    /// Whether the marker is there.
    pub marker: bool,
    /// Whether there is a header under the other name.
    pub header_waiting: bool,
    /// Whether there is an index under the other name.
    pub index_waiting: bool,
    /// Whether the header in place is the new one.
    pub header_is_new: bool,
    /// Whether the index in place is the new one.
    pub index_is_new: bool,
}

impl Disk {
    /// The directory after a step.
    pub open spec fn after(self, step: RekeyStep) -> Disk {
        match step {
            RekeyStep::WriteHeader => Disk { header_waiting: true, ..self },
            RekeyStep::WriteIndex => Disk { index_waiting: true, ..self },
            RekeyStep::WriteMarker => Disk { marker: true, ..self },
            RekeyStep::MoveHeader => Disk { header_waiting: false, header_is_new: true, ..self },
            RekeyStep::MoveIndex => Disk { index_waiting: false, index_is_new: true, ..self },
            RekeyStep::RemoveMarker => Disk { marker: false, ..self },
            RekeyStep::DropHeader => Disk { header_waiting: false, ..self },
            RekeyStep::DropIndex => Disk { index_waiting: false, ..self },
        }
    }

    /// The directory after the first `n` of some steps.
    pub open spec fn after_steps(self, steps: Seq<RekeyStep>, n: nat) -> Disk
        decreases n,
    {
        if n == 0 {
            self
        } else {
            self.after_steps(steps, (n - 1) as nat).after(steps[n - 1])
        }
    }

    /// Whether nothing is lost: under the marker each of the two is in place or
    /// waiting; without it the two in place belong together.
    pub open spec fn sound(self) -> bool {
        if self.marker {
            (self.header_is_new || self.header_waiting) && (self.index_is_new || self.index_waiting)
        } else {
            self.header_is_new == self.index_is_new
        }
    }

    /// Whether no rekeying is under way.
    pub open spec fn settled(self) -> bool {
        !self.marker && !self.header_waiting && !self.index_waiting && self.header_is_new == self.index_is_new
    }
}

/// The steps of a commit.
pub open spec fn commit_sequence() -> Seq<RekeyStep> {
    seq![
        RekeyStep::WriteHeader,
        RekeyStep::WriteIndex,
        RekeyStep::WriteMarker,
        RekeyStep::MoveHeader,
        RekeyStep::MoveIndex,
        RekeyStep::RemoveMarker,
    ]
}

/// The steps that settle a directory.
pub open spec fn recovery_sequence(marker: bool, header_waiting: bool, index_waiting: bool) -> Seq<RekeyStep> {
    let header: Seq<RekeyStep> = if !header_waiting {
        seq![]
    } else if marker {
        seq![RekeyStep::MoveHeader]
    } else {
        seq![RekeyStep::DropHeader]
    };
    let index: Seq<RekeyStep> = if !index_waiting {
        seq![]
    } else if marker {
        seq![RekeyStep::MoveIndex]
    } else {
        seq![RekeyStep::DropIndex]
    };
    let end: Seq<RekeyStep> = if marker {
        seq![RekeyStep::RemoveMarker]
    } else {
        seq![]
    };
    header + index + end
}

/// The steps of a commit.
pub fn commit_steps() -> (steps: Vec<RekeyStep>)
    ensures
        steps@ == commit_sequence(),
{
    let mut steps: Vec<RekeyStep> = Vec::new();
    steps.push(RekeyStep::WriteHeader);
    steps.push(RekeyStep::WriteIndex);
    steps.push(RekeyStep::WriteMarker);
    steps.push(RekeyStep::MoveHeader);
    steps.push(RekeyStep::MoveIndex);
    steps.push(RekeyStep::RemoveMarker);
    assert(steps@ =~= commit_sequence());
    steps
}

/// The steps that settle a directory, given what is found in it.
pub fn recovery_steps(marker: bool, header_waiting: bool, index_waiting: bool) -> (steps: Vec<RekeyStep>)
    ensures
        steps@ == recovery_sequence(marker, header_waiting, index_waiting),
{
    let mut steps: Vec<RekeyStep> = Vec::new();
    if header_waiting {
        if marker {
            steps.push(RekeyStep::MoveHeader);
        } else {
            steps.push(RekeyStep::DropHeader);
        }
    }
    if index_waiting {
        if marker {
            steps.push(RekeyStep::MoveIndex);
        } else {
            steps.push(RekeyStep::DropIndex);
        }
    }
    if marker {
        steps.push(RekeyStep::RemoveMarker);
    }
    assert(steps@ =~= recovery_sequence(marker, header_waiting, index_waiting));
    steps
}

/// A commit may stop after any step: nothing is lost, and once the marker is
/// there, and only then, the directory settles on the new header and index.
pub proof fn law_commit_can_stop_anywhere(start: Disk, n: nat)
    requires
        start.settled(),
        !start.header_is_new,
        n <= commit_sequence().len(),
    ensures
        start.after_steps(commit_sequence(), n).sound(),
        start.after_steps(commit_sequence(), n).settles_on_new() == (n >= 3),
        n == commit_sequence().len() ==> start.after_steps(commit_sequence(), n).settled(),
{
    reveal_with_fuel(Disk::after_steps, 7);
}

impl Disk {
    /// Which header and index a sound directory settles on.
    pub open spec fn settles_on_new(self) -> bool {
        self.marker || self.header_is_new
    }
}

/// Recovery settles every sound directory, on the header and the index that were
/// decided before it began.
pub proof fn law_recovery_settles(disk: Disk)
    requires
        disk.sound(),
    ensures
        ({
            let steps = recovery_sequence(disk.marker, disk.header_waiting, disk.index_waiting);
            let end = disk.after_steps(steps, steps.len());
            &&& end.settled()
            &&& end.header_is_new == disk.settles_on_new()
            &&& end.index_is_new == disk.settles_on_new()
        }),
{
    reveal_with_fuel(Disk::after_steps, 5);
}

/// Recovery itself may stop after any step: the directory stays sound and settles
/// on the same header and index.
pub proof fn law_recovery_can_stop_anywhere(disk: Disk, n: nat)
    requires
        disk.sound(),
        n <= recovery_sequence(disk.marker, disk.header_waiting, disk.index_waiting).len(),
    ensures
        ({
            let steps = recovery_sequence(disk.marker, disk.header_waiting, disk.index_waiting);
            let stopped = disk.after_steps(steps, n);
            &&& stopped.sound()
            &&& stopped.settles_on_new() == disk.settles_on_new()
        }),
{
    reveal_with_fuel(Disk::after_steps, 5);
}

} // verus!
