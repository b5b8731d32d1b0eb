//! Resolution of an item's effective version range from its annotation and
//! the range of its container.
use crate::decl::{VersionHeader, VersionItem};
use crate::error::{error_at, CompileError, ErrorKind};
use vstd::prelude::*;

verus! {

/// A resolved, half-open range `[added, removed)` of version numbers;
/// `removed == None` means the item exists from `added` on.
#[derive(Clone, Copy, Debug, PartialEq, Eq, Structural)]
pub struct Version {
    pub added: u32,
    pub removed: Option<u32>,
}

impl Version {
    /// A well-formed range starts at version 1 or later and ends after it
    /// starts.
    pub open spec fn wf(self) -> bool {
        &&& self.added >= 1
        &&& self.removed matches Some(r) ==> r > self.added && r >= 2
    }

    /// Whether version `v` lies in the range.
    pub open spec fn contains(self, v: int) -> bool {
        &&& self.added <= v
        &&& self.removed matches Some(r) ==> v < r
    }

    /// The range of an item with no annotation and no container.
    pub open spec fn initial() -> Version {
        Version { added: 1, removed: None }
    }

    /// Whether every version of `self` lies in `outer`.
    pub open spec fn within(self, outer: Version) -> bool {
        &&& self.added >= outer.added
        &&& outer.removed matches Some(o) ==> (self.removed matches Some(r) && r <= o)
    }
}

impl Version {
    /// Whether version `v` lies in the range.
    pub fn holds(&self, v: u32) -> (r: bool)
        ensures
            r == self.contains(v as int),
    {
        self.added <= v && match self.removed {
            Some(r) => v < r,
            None => true,
        }
    }
}

impl Default for Version {
    fn default() -> (r: Version)
        ensures
            r == Version::initial(),
    {
        Version { added: 1, removed: None }
    }
}

/// The first version of an annotated item.
pub open spec fn added_of(header: VersionHeader, container: Option<Version>) -> Result<u32, CompileError> {
    match header.added {
        None => Ok(
            match container {
                Some(c) => c.added,
                None => 1u32,
            },
        ),
        Some(a) => if a.num < 1 {
            Err(error_at(ErrorKind::MalformedVersion, a.span))
        } else {
            match container {
                None => Ok(a.num),
                Some(c) => if a.num < c.added {
                    Err(error_at(ErrorKind::ContainmentViolation, a.span))
                } else if c.removed matches Some(cr) && a.num >= cr {
                    Err(error_at(ErrorKind::ContainmentViolation, a.span))
                } else {
                    Ok(a.num)
                },
            }
        },
    }
}

/// The end of an annotated item's range, once its first version is known.
pub open spec fn removed_of(header: VersionHeader, container: Option<Version>, added: u32) -> Result<Option<u32>, CompileError> {
    match header.removed {
        None => Ok(
            match container {
                Some(c) => c.removed,
                None => None,
            },
        ),
        Some(r) => if r.num < 2 {
            Err(error_at(ErrorKind::MalformedVersion, r.span))
        } else if r.num <= added {
            Err(error_at(ErrorKind::MalformedVersion, r.span))
        } else {
            match container {
                None => Ok(Some(r.num)),
                Some(c) => if r.num <= c.added {
                    Err(error_at(ErrorKind::ContainmentViolation, r.span))
                } else if c.removed matches Some(cr) && r.num > cr {
                    Err(error_at(ErrorKind::ContainmentViolation, r.span))
                } else {
                    Ok(Some(r.num))
                },
            }
        },
    }
}

/// The effective range of an item, or the first fault of its annotation:
/// an unannotated item takes its container's range (or `[1, ∞)` at top
/// level); the `add` literal is checked before the `rem` literal.
pub open spec fn resolve(header: Option<VersionHeader>, container: Option<Version>) -> Result<Version, CompileError> {
    match header {
        None => Ok(
            match container {
                Some(c) => c,
                None => Version::initial(),
            },
        ),
        Some(h) => match added_of(h, container) {
            Err(e) => Err(e),
            Ok(added) => match removed_of(h, container, added) {
                Err(e) => Err(e),
                Ok(removed) => Ok(Version { added, removed }),
            },
        },
    }
}

/// Whether an annotation breaks a rule of its own or escapes its container:
/// an `add` below 1, a `rem` below 2 or not after the first version, or a
/// range that leaves the container's range.
pub open spec fn violates(header: VersionHeader, container: Option<Version>) -> bool {
    let added: int = match header.added {
        Some(a) => a.num as int,
        None => match container {
            Some(c) => c.added as int,
            None => 1,
        },
    };
    ||| header.added matches Some(a) && a.num < 1
    ||| header.removed matches Some(r) && (r.num < 2 || r.num <= added)
    ||| container matches Some(c) && {
        ||| header.added matches Some(a) && a.num < c.added
        ||| header.added matches Some(a) && (c.removed matches Some(cr) && a.num >= cr)
        ||| header.removed matches Some(r) && r.num <= c.added
        ||| header.removed matches Some(r) && (c.removed matches Some(cr) && r.num > cr)
    }
}

/// Resolving an annotation fails exactly when it breaks a rule of its own or
/// escapes its container; otherwise the range is well formed and within the
/// container.
pub proof fn lemma_resolve_fails_iff_violation(header: VersionHeader, container: Option<Version>)
    requires
        container matches Some(c) ==> c.wf(),
    ensures
        resolve(Some(header), container).is_err() <==> violates(header, container),
        resolve(Some(header), container) matches Ok(r) ==> r.wf(),
        resolve(Some(header), container) matches Ok(r) ==> (container matches Some(c) ==> r.within(c)),
{
}

/// An item without an annotation takes its container's range unchanged, or
/// `[1, ∞)` where it has no container.
pub proof fn lemma_unannotated_inherits(container: Option<Version>)
    ensures
        resolve(None, container) == Ok::<Version, CompileError>(
            match container {
                Some(c) => c,
                None => Version::initial(),
            },
        ),
{
}

/// Checks an item's annotation against its container's range and returns
/// the item's effective range.
pub fn check_version(version: Option<VersionHeader>, container_version: Option<Version>) -> (r: Result<Version, CompileError>)
    ensures
        r == resolve(version, container_version),
{
    match version {
        None => match container_version {
            Some(c) => Ok(c),
            None => Ok(Version { added: 1, removed: None }),
        },
        Some(header) => {
            let added = match check_added(header.added, container_version) {
                Ok(a) => a,
                Err(e) => {
                    return Err(e);
                },
            };
            match check_removed(header.removed, container_version, added) {
                Ok(removed) => Ok(Version { added, removed }),
                Err(e) => Err(e),
            }
        },
    }
}

fn check_added(added: Option<VersionItem>, container: Option<Version>) -> (r: Result<u32, CompileError>)
    ensures
        forall|h: VersionHeader| h.added == added ==> r == added_of(h, container),
{
    match added {
        None => match container {
            Some(c) => Ok(c.added),
            None => Ok(1),
        },
        Some(a) => {
            if a.num < 1 {
                return Err(CompileError::at(ErrorKind::MalformedVersion, a.span));
            }
            if let Some(c) = container {
                if a.num < c.added {
                    return Err(CompileError::at(ErrorKind::ContainmentViolation, a.span));
                }
                if let Some(cr) = c.removed {
                    if a.num >= cr {
                        return Err(CompileError::at(ErrorKind::ContainmentViolation, a.span));
                    }
                }
            }
            Ok(a.num)
        },
    }
}

fn check_removed(removed: Option<VersionItem>, container: Option<Version>, added: u32) -> (r: Result<Option<u32>, CompileError>)
    ensures
        forall|h: VersionHeader| h.removed == removed ==> r == removed_of(h, container, added),
{
    match removed {
        None => match container {
            Some(c) => Ok(c.removed),
            None => Ok(None),
        },
        Some(rem) => {
            if rem.num < 2 || rem.num <= added {
                return Err(CompileError::at(ErrorKind::MalformedVersion, rem.span));
            }
            if let Some(c) = container {
                if rem.num <= c.added {
                    return Err(CompileError::at(ErrorKind::ContainmentViolation, rem.span));
                }
                if let Some(cr) = c.removed {
                    if rem.num > cr {
                        return Err(CompileError::at(ErrorKind::ContainmentViolation, rem.span));
                    }
                }
            }
            Ok(Some(rem.num))
        },
    }
}

} // verus!
