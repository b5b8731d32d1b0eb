use cyder::decl::{Span, VersionHeader, VersionItem};
use cyder::error::{CompileError, ErrorKind};
use cyder::overlap::check_version_overlap;
use cyder::range::{check_version, Version};

fn at(num: u32, line: u32) -> VersionItem {
    VersionItem { num, span: Span { line, column: 0 } }
}

fn header(added: Option<u32>, removed: Option<u32>) -> VersionHeader {
    VersionHeader { added: added.map(|n| at(n, 1)), removed: removed.map(|n| at(n, 2)) }
}

fn range(added: u32, removed: Option<u32>) -> Version {
    Version { added, removed }
}

/// An independent statement of when an annotation is rejected.
fn rejected(h: VersionHeader, container: Option<Version>) -> bool {
    let added = match (h.added, container) {
        (Some(a), _) => a.num,
        (None, Some(c)) => c.added,
        (None, None) => 1,
    };
    let mut bad = false;
    if let Some(a) = h.added {
        bad |= a.num < 1;
    }
    if let Some(r) = h.removed {
        bad |= r.num < 2 || r.num <= added;
    }
    if let Some(c) = container {
        if let Some(a) = h.added {
            bad |= a.num < c.added;
            if let Some(cr) = c.removed {
                bad |= a.num >= cr;
            }
        }
        if let Some(r) = h.removed {
            bad |= r.num <= c.added;
            if let Some(cr) = c.removed {
                bad |= r.num > cr;
            }
        }
    }
    bad
}

#[test]
fn resolve_fails_exactly_on_rule_breaks() {
    let options = [None, Some(0u32), Some(1), Some(2), Some(3), Some(4), Some(5)];
    let mut containers = vec![None];
    for a in 1..5u32 {
        containers.push(Some(range(a, None)));
        for r in (a + 1)..6 {
            containers.push(Some(range(a, Some(r))));
        }
    }
    for added in options {
        for removed in options {
            if added.is_none() && removed.is_none() {
                continue;
            }
            for container in containers.iter().copied() {
                let h = header(added, removed);
                let result = check_version(Some(h), container);
                assert_eq!(result.is_err(), rejected(h, container), "{:?} {:?}", h, container);
                if let Ok(r) = result {
                    assert!(r.added >= 1);
                    if let Some(x) = r.removed {
                        assert!(x > r.added && x >= 2);
                    }
                }
            }
        }
    }
}

#[test]
fn resolve_defaults_and_values() {
    assert_eq!(check_version(Some(header(None, Some(4))), None), Ok(range(1, Some(4))));
    assert_eq!(check_version(Some(header(Some(3), None)), Some(range(2, Some(6)))), Ok(range(3, Some(6))));
    assert_eq!(check_version(Some(header(None, Some(5))), Some(range(2, Some(6)))), Ok(range(2, Some(5))));
    assert_eq!(
        check_version(Some(header(Some(0), None)), None),
        Err(CompileError { kind: ErrorKind::MalformedVersion, location: Some(Span { line: 1, column: 0 }) })
    );
    assert_eq!(
        check_version(Some(header(Some(2), Some(7))), Some(range(2, Some(6)))),
        Err(CompileError { kind: ErrorKind::ContainmentViolation, location: Some(Span { line: 2, column: 0 }) })
    );
}

#[test]
fn unannotated_item_inherits_its_container() {
    assert_eq!(check_version(None, None), Ok(range(1, None)));
    assert_eq!(check_version(None, Some(range(3, Some(7)))), Ok(range(3, Some(7))));
    assert_eq!(check_version(None, Some(range(2, None))), Ok(range(2, None)));
    assert_eq!(Version::default(), range(1, None));
}

#[test]
fn overlap_outcome_ignores_declaration_order() {
    let span = Span { line: 9, column: 9 };
    let mut ranges = vec![];
    for a in 1..6u32 {
        ranges.push(range(a, None));
        for r in (a + 1)..7 {
            ranges.push(range(a, Some(r)));
        }
    }
    for x in &ranges {
        for y in &ranges {
            for xa in [false, true] {
                for ya in [false, true] {
                    let forward = check_version_overlap(xa, *x, ya, *y, span);
                    let backward = check_version_overlap(ya, *y, xa, *x, span);
                    assert_eq!(forward.is_ok(), backward.is_ok());
                    let shared = (1..8).any(|v| {
                        let holds = |r: &Version| r.added <= v && r.removed.map_or(true, |e| v < e);
                        holds(x) && holds(y)
                    });
                    if forward.is_ok() {
                        assert!(!shared);
                    }
                }
            }
        }
    }
}

#[test]
fn overlap_error_names_the_later_item() {
    let span = Span { line: 4, column: 2 };
    assert_eq!(
        check_version_overlap(true, range(1, Some(3)), true, range(2, None), span),
        Err(CompileError { kind: ErrorKind::NameOverlap, location: Some(span) })
    );
    assert_eq!(check_version_overlap(true, range(1, Some(2)), true, range(2, None), span), Ok(()));
    assert!(check_version_overlap(false, range(1, Some(2)), true, range(2, None), span).is_err());
}
