//! Access levels, how the secrets of each level are stored, and which branches a replica
//! may open.

use vstd::prelude::*;
use crate::error::Error;
use crate::replica_id::bytes_equal;

verus! {

/// What a replica can do with a repository: carry its data (blind), read it, or also
/// write it.
#[derive(Clone, Copy, Debug, PartialEq, Eq, Structural)]
pub enum AccessMode {
    Blind,
    Read,
    Write,
}

/// How access is held locally: which secrets there are and which of them are locked by a
/// local password.
#[derive(Clone, Copy, Debug, PartialEq, Eq, Structural)]
pub enum AccessKind {
    Blind,
    ReadUnlocked,
    ReadLocked,
    WriteUnlocked,
    WriteLocked,
    WriteLockedReadUnlocked,
}

/// Which key entries the metadata store holds for an access kind: keys in the clear
/// (public) or wrapped by a local password (secret).
#[derive(Clone, Copy, Debug, PartialEq, Eq, Structural)]
pub struct KeySlots {
    pub public_read: bool,
    pub secret_read: bool,
    pub public_write: bool,
    pub secret_write: bool,
}

/// The access a new repository gets from the passwords given and the mode of the share
/// token (write when there is no token):
///
/// read password | write password | token | result
/// --------------+----------------+-------+-------------------------------------------
/// any           | any            | blind | blind
/// none          | any            | read  | read without password
/// some          | any            | read  | read with the read password
/// none          | none           | write | read and write without password
/// some          | none           | write | read only, with the password
/// none          | some           | write | read without password, write with password
/// some          | some           | write | read and write, each with its password
pub open spec fn spec_access_for(read_password: bool, write_password: bool, token: AccessMode) -> AccessKind {
    match token {
        AccessMode::Blind => AccessKind::Blind,
        AccessMode::Read => if read_password {
            AccessKind::ReadLocked
        } else {
            AccessKind::ReadUnlocked
        },
        AccessMode::Write => if !read_password && !write_password {
            AccessKind::WriteUnlocked
        } else if read_password && !write_password {
            AccessKind::ReadLocked
        } else if !read_password {
            AccessKind::WriteLockedReadUnlocked
        } else {
            AccessKind::WriteLocked
        },
    }
}

/// Access a new repository gets; see `spec_access_for` for the table.
pub fn access_for(read_password: bool, write_password: bool, token: AccessMode) -> (r: AccessKind)
    ensures
        r == spec_access_for(read_password, write_password, token),
{
    match token {
        AccessMode::Blind => AccessKind::Blind,
        AccessMode::Read => if read_password {
            AccessKind::ReadLocked
        } else {
            AccessKind::ReadUnlocked
        },
        AccessMode::Write => if !read_password && !write_password {
            AccessKind::WriteUnlocked
        } else if read_password && !write_password {
            AccessKind::ReadLocked
        } else if !read_password {
            AccessKind::WriteLockedReadUnlocked
        } else {
            AccessKind::WriteLocked
        },
    }
}

/// Key entries stored for `kind`; every other key entry is removed.
pub open spec fn spec_key_slots(kind: AccessKind) -> KeySlots {
    match kind {
        AccessKind::Blind => KeySlots {
            public_read: false,
            secret_read: false,
            public_write: false,
            secret_write: false,
        },
        AccessKind::ReadUnlocked => KeySlots {
            public_read: true,
            secret_read: false,
            public_write: false,
            secret_write: false,
        },
        AccessKind::ReadLocked => KeySlots {
            public_read: false,
            secret_read: true,
            public_write: false,
            secret_write: false,
        },
        AccessKind::WriteUnlocked => KeySlots {
            public_read: true,
            secret_read: false,
            public_write: true,
            secret_write: false,
        },
        AccessKind::WriteLocked => KeySlots {
            public_read: false,
            secret_read: true,
            public_write: false,
            secret_write: true,
        },
        AccessKind::WriteLockedReadUnlocked => KeySlots {
            public_read: true,
            secret_read: false,
            public_write: false,
            secret_write: true,
        },
    }
}

/// Which key entries the metadata store keeps when access is set to `kind`.
pub fn set_access(kind: AccessKind) -> (r: KeySlots)
    ensures
        r == spec_key_slots(kind),
{
    match kind {
        AccessKind::Blind => KeySlots {
            public_read: false,
            secret_read: false,
            public_write: false,
            secret_write: false,
        },
        AccessKind::ReadUnlocked => KeySlots {
            public_read: true,
            secret_read: false,
            public_write: false,
            secret_write: false,
        },
        AccessKind::ReadLocked => KeySlots {
            public_read: false,
            secret_read: true,
            public_write: false,
            secret_write: false,
        },
        AccessKind::WriteUnlocked => KeySlots {
            public_read: true,
            secret_read: false,
            public_write: true,
            secret_write: false,
        },
        AccessKind::WriteLocked => KeySlots {
            public_read: false,
            secret_read: true,
            public_write: false,
            secret_write: true,
        },
        AccessKind::WriteLockedReadUnlocked => KeySlots {
            public_read: true,
            secret_read: false,
            public_write: false,
            secret_write: true,
        },
    }
}

/// Reading needs a local password unless a read or a write key is stored in the clear.
pub fn requires_local_password_for_reading(slots: KeySlots) -> (r: bool)
    ensures
        r == (!slots.public_read && !slots.public_write),
{
    !slots.public_read && !slots.public_write
}

/// Writing needs a local password unless the write key is stored in the clear.
pub fn requires_local_password_for_writing(slots: KeySlots) -> (r: bool)
    ensures
        r == !slots.public_write,
{
    !slots.public_write
}

/// Access mode a replica has after opening with the stored keys, given whether a local
/// password was supplied that unlocks the secret entries.
pub open spec fn spec_unlocked_mode(slots: KeySlots, unlocked: bool) -> AccessMode {
    if slots.public_write || (unlocked && slots.secret_write) {
        AccessMode::Write
    } else if slots.public_read || (unlocked && slots.secret_read) {
        AccessMode::Read
    } else {
        AccessMode::Blind
    }
}

/// Access mode a replica gets from the stored key entries; a secret entry counts only when
/// the local password unlocks it.
pub fn unlocked_mode(slots: KeySlots, unlocked: bool) -> (r: AccessMode)
    ensures
        r == spec_unlocked_mode(slots, unlocked),
{
    if slots.public_write || (unlocked && slots.secret_write) {
        AccessMode::Write
    } else if slots.public_read || (unlocked && slots.secret_read) {
        AccessMode::Read
    } else {
        AccessMode::Blind
    }
}

/// Size of a writer id in bytes.
pub const WRITER_ID_SIZE: usize = 32;

/// Public key that identifies the writer of a branch.
#[derive(Clone, Copy, Debug, PartialEq, Eq, Hash)]
pub struct WriterId(pub [u8; WRITER_ID_SIZE]);

/// A branch as a replica may open it: whose it is and whether it may be written.
#[derive(Clone, Copy, Debug, PartialEq, Eq)]
pub struct Branch {
    pub id: WriterId,
    pub writable: bool,
}

/// What a repository knows of itself: its own writer id and its access mode.
pub struct Shared {
    pub this_writer_id: WriterId,
    pub mode: AccessMode,
}

impl Shared {
    /// The branch of this replica.
    pub fn local_branch(&self) -> (r: Result<Branch, Error>)
        ensures
            self.mode == AccessMode::Blind ==> r == Err::<Branch, Error>(Error::PermissionDenied),
            self.mode != AccessMode::Blind ==> r is Ok && r->Ok_0.id == self.this_writer_id
                && r->Ok_0.writable == (self.mode == AccessMode::Write),
    {
        self.get_branch(self.this_writer_id)
    }

    /// The branch of writer `id`. Fails with `PermissionDenied` on a blind replica; only
    /// the replica's own branch can be written, and only with write access.
    pub fn get_branch(&self, id: WriterId) -> (r: Result<Branch, Error>)
        ensures
            self.mode == AccessMode::Blind ==> r == Err::<Branch, Error>(Error::PermissionDenied),
            self.mode != AccessMode::Blind ==> r is Ok && r->Ok_0.id == id && r->Ok_0.writable
                == (self.mode == AccessMode::Write && id.0@ == self.this_writer_id.0@),
    {
        match self.mode {
            AccessMode::Blind => Err(Error::PermissionDenied),
            AccessMode::Read => Ok(Branch { id, writable: false }),
            AccessMode::Write => {
                let own = bytes_equal(id.0.as_slice(), self.this_writer_id.0.as_slice());
                Ok(Branch { id, writable: own })
            },
        }
    }
}

/// How a replica requests blocks from its peers.
#[derive(Clone, Copy, Debug, PartialEq, Eq, Structural)]
pub enum BlockRequestMode {
    /// Only the blocks that reachable paths need.
    Lazy,
    /// Every block it learns about.
    Greedy,
}

/// A replica that cannot read requests every block it learns of, so that it can carry the
/// data to others; one that can read requests only what it needs.
pub fn block_request_mode(mode: AccessMode) -> (r: BlockRequestMode)
    ensures
        r == if mode == AccessMode::Blind {
            BlockRequestMode::Greedy
        } else {
            BlockRequestMode::Lazy
        },
{
    match mode {
        AccessMode::Blind => BlockRequestMode::Greedy,
        _ => BlockRequestMode::Lazy,
    }
}

/// Branches whose roots make up the root directory: those stored, plus the local branch
/// when it is writable and not stored yet.
pub fn branches_to_open(stored: &Vec<WriterId>, local: &Branch) -> (r: Vec<WriterId>)
    ensures
        r@ == if local.writable && forall|i: int|
            0 <= i < stored@.len() ==> #[trigger] stored@[i].0@ != local.id.0@ {
            stored@.push(local.id)
        } else {
            stored@
        },
{
    let mut listed = false;
    let mut i: usize = 0;
    while i < stored.len()
        invariant
            i <= stored@.len(),
            listed == exists|k: int| 0 <= k < i && #[trigger] stored@[k].0@ == local.id.0@,
        decreases stored@.len() - i,
    {
        if bytes_equal(stored[i].0.as_slice(), local.id.0.as_slice()) {
            listed = true;
        }
        i = i + 1;
    }
    let mut r: Vec<WriterId> = Vec::new();
    let mut k: usize = 0;
    while k < stored.len()
        invariant
            k <= stored@.len(),
            r@ == stored@.subrange(0, k as int),
        decreases stored@.len() - k,
    {
        r.push(stored[k]);
        k = k + 1;
        assert(r@ =~= stored@.subrange(0, k as int));
    }
    assert(r@ =~= stored@);
    if local.writable && !listed {
        r.push(local.id);
    }
    r
}

/// Why the root directory of a branch could not be opened.
#[derive(Clone, Copy, Debug, PartialEq, Eq, Structural)]
pub enum RootOpenError {
    /// The branch is not stored (yet, or any more).
    BranchNotFound,
    /// A root block has not arrived yet.
    BlockNotFound,
    /// Anything else.
    Other,
}

/// Whether a branch whose root failed to open is left out of the root directory rather
/// than failing it: a branch not stored and a root block not arrived yet are skipped.
pub fn skips_branch(error: RootOpenError) -> (r: bool)
    ensures
        r == (error != RootOpenError::Other),
{
    match error {
        RootOpenError::Other => false,
        _ => true,
    }
}

/// The access kind chosen at creation is what the stored keys give back: opening with the
/// passwords that were set restores the token's mode where a password was given for it or
/// none was needed, and opening without any password gives exactly the unlocked part.
pub proof fn lemma_access_round_trip(read_password: bool, write_password: bool, token: AccessMode)
    ensures
        ({
            let slots = spec_key_slots(spec_access_for(read_password, write_password, token));
            &&& spec_unlocked_mode(slots, true) == (if token == AccessMode::Write && read_password
                && !write_password {
                AccessMode::Read
            } else {
                token
            })
            &&& spec_unlocked_mode(slots, false) == (match token {
                AccessMode::Blind => AccessMode::Blind,
                AccessMode::Read => if read_password {
                    AccessMode::Blind
                } else {
                    AccessMode::Read
                },
                AccessMode::Write => if !read_password && !write_password {
                    AccessMode::Write
                } else if !read_password {
                    AccessMode::Read
                } else {
                    AccessMode::Blind
                },
            })
        }),
{
}

} // verus!
