use phpswitch::constraint::{prefix_of, ResolveError};
use phpswitch::resolver::{resolve, resolve_declared, select, ResolutionResult};

fn strings(list: &[&str]) -> Vec<String> {
    list.iter().map(|s| s.to_string()).collect()
}

fn selected(version: &str) -> Result<ResolutionResult, ResolveError> {
    Ok(ResolutionResult::Selected(version.to_string()))
}

/// The same resolution, written as two loops over the standard library's string functions.
fn resolve_with_std(raw: &str, installed: &[String]) -> Result<ResolutionResult, ResolveError> {
    let normalized = raw.trim().trim_matches('"');
    if normalized.is_empty() {
        return Err(ResolveError::EmptyConstraint);
    }
    let mut slot: Option<String> = None;
    for atom in normalized.split(" || ") {
        let atom = atom.trim();
        let wanted = atom.strip_prefix('^').unwrap_or(atom);
        for version in installed {
            if version.starts_with(wanted) {
                slot = Some(version.clone());
            }
        }
    }
    match slot {
        Some(version) if !version.is_empty() => Ok(ResolutionResult::Selected(version)),
        _ => Ok(ResolutionResult::NoMatch),
    }
}

#[test]
fn caret_atom_selects_the_only_version_with_its_prefix() {
    assert_eq!(resolve("^8.1", &strings(&["7.4", "8.1", "8.2"])), selected("8.1"));
    assert_eq!(resolve("^8.1", &strings(&["8.1.27"])), selected("8.1.27"));
    assert_eq!(resolve("^7", &strings(&["7.4", "8.1"])), selected("7.4"));
}

#[test]
fn atom_without_caret_selects_by_prefix_too() {
    assert_eq!(resolve("8.2", &strings(&["8.1", "8.2"])), selected("8.2"));
}

#[test]
fn nothing_matches_where_no_version_has_a_prefix() {
    assert_eq!(resolve("^5.6", &strings(&["7.4", "8.1"])), Ok(ResolutionResult::NoMatch));
    assert_eq!(resolve("^9 || ^10", &strings(&["7.4", "8.1"])), Ok(ResolutionResult::NoMatch));
    assert_eq!(resolve("^8.1", &strings(&[])), Ok(ResolutionResult::NoMatch));
    assert_eq!(resolve("^8.10", &strings(&["8.1"])), Ok(ResolutionResult::NoMatch));
}

#[test]
fn blank_constraints_are_rejected_as_empty() {
    let installed = strings(&["8.1", "8.2"]);
    for raw in ["", " ", "\t\n ", "\"", "\"\"\"\"", " \"\" "] {
        assert_eq!(resolve(raw, &installed), Err(ResolveError::EmptyConstraint), "for {:?}", raw);
    }
    assert_eq!(resolve("", &strings(&[])), Err(ResolveError::EmptyConstraint));
}

#[test]
fn later_version_wins_for_one_atom() {
    assert_eq!(resolve("^8", &strings(&["8.1", "8.2"])), selected("8.2"));
    assert_eq!(resolve("^8", &strings(&["8.2", "8.1"])), selected("8.1"));
    assert_eq!(resolve("^8", &strings(&["8.2", "7.4", "8.1", "5.6"])), selected("8.1"));
}

#[test]
fn later_atom_with_a_match_wins() {
    assert_eq!(resolve("^1 || ^2", &strings(&["1.5", "2.5"])), selected("2.5"));
    assert_eq!(resolve("^2 || ^1", &strings(&["1.5", "2.5"])), selected("1.5"));
    assert_eq!(resolve("^1 || ^3", &strings(&["1.5", "2.5"])), selected("1.5"));
}

#[test]
fn later_atom_that_only_the_earlier_version_satisfies_decides_for_it() {
    assert_eq!(resolve("^1 || ^1.5", &strings(&["1.5", "1.6"])), selected("1.5"));
}

#[test]
fn quoted_constraint_with_white_space_selects_the_declared_version() {
    assert_eq!(resolve(" \"^8.1\" ", &strings(&["8.1", "8.2"])), selected("8.1"));
}

#[test]
fn duplicates_among_the_installed_versions_change_nothing() {
    assert_eq!(resolve("^8.1", &strings(&["8.1", "8.1", "8.2"])), selected("8.1"));
    assert_eq!(resolve("^8", &strings(&["8.2", "8.1", "8.2"])), selected("8.2"));
}

#[test]
fn lone_caret_and_empty_atom_match_every_version() {
    assert_eq!(resolve("^", &strings(&["7.4", "8.1"])), selected("8.1"));
    assert_eq!(resolve("^9 ||  || ^5", &strings(&["7.4", "8.1"])), selected("8.1"));
}

#[test]
fn selected_version_without_text_counts_as_no_match() {
    assert_eq!(resolve("^", &strings(&["8.1", ""])), Ok(ResolutionResult::NoMatch));
    assert_eq!(resolve("^8", &strings(&["8.1", ""])), selected("8.1"));
}

#[test]
fn other_operators_are_part_of_the_prefix() {
    assert_eq!(resolve("~8.1", &strings(&["8.1", "8.2"])), Ok(ResolutionResult::NoMatch));
    assert_eq!(resolve(">=8.1", &strings(&["8.1", "8.2"])), Ok(ResolutionResult::NoMatch));
    assert_eq!(resolve("^^8", &strings(&["8.1", "^8.1"])), selected("^8.1"));
    assert_eq!(resolve("~8.1 || ^8.2", &strings(&["8.1", "8.2"])), selected("8.2"));
}

#[test]
fn resolving_twice_gives_the_same_outcome() {
    let installed = strings(&["7.4", "8.1", "8.2"]);
    for raw in ["^8.1 || ^8.2", "^9", "", " \"^7\" "] {
        assert_eq!(resolve(raw, &installed), resolve(raw, &installed));
    }
}

#[test]
fn resolve_agrees_with_the_standard_library() {
    let sets = [
        strings(&[]),
        strings(&["8.1"]),
        strings(&["7.4", "8.1", "8.2"]),
        strings(&["8.2", "8.1", "7.4"]),
        strings(&["8.1", "", "8.10"]),
        strings(&["é1", "^8", " 8"]),
    ];
    let constraints = [
        "", " ", "\"", "^8.1", "^8", "^", "8", "^8.1 || ^8.2", "^8.2 || ^8.1", " \"^8.1\" ",
        "^7 || ^9", "^9 || ^7", "a ||  || b", "^^8", "^é", "\" 8 \"", ">=7.4", "^8.1||^8.2",
    ];
    for installed in &sets {
        for raw in constraints {
            assert_eq!(
                resolve(raw, installed),
                resolve_with_std(raw, installed),
                "for {:?} against {:?}",
                raw,
                installed
            );
        }
    }
}

#[test]
fn select_gives_the_index_of_the_last_matching_pair() {
    let installed = strings(&["7.4", "8.1", "8.2"]);
    assert_eq!(select(&strings(&["^8"]), &installed), Some(2));
    assert_eq!(select(&strings(&["^8", "^7"]), &installed), Some(0));
    assert_eq!(select(&strings(&["^7", "^9"]), &installed), Some(0));
    assert_eq!(select(&strings(&["^9"]), &installed), None);
    assert_eq!(select(&strings(&[]), &installed), None);
    assert_eq!(select(&strings(&["^8"]), &strings(&[])), None);
}

#[test]
fn select_matches_on_the_prefix_of_each_atom() {
    let installed = strings(&["8.1"]);
    for atom in ["^8.1", "8.1", "^8", "^"] {
        assert_eq!(select(&strings(&[atom]), &installed), Some(0));
        assert!(installed[0].starts_with(prefix_of(atom).as_str()));
    }
}

#[test]
fn manifest_without_a_constraint_matches_nothing() {
    assert_eq!(resolve_declared(None, &strings(&["8.1"])), Ok(ResolutionResult::NoMatch));
    assert_eq!(resolve_declared(None, &strings(&[])), Ok(ResolutionResult::NoMatch));
}

#[test]
fn declared_constraint_is_resolved_as_any_other() {
    let installed = strings(&["8.1", "8.2"]);
    assert_eq!(resolve_declared(Some("^8.1"), &installed), selected("8.1"));
    assert_eq!(resolve_declared(Some("^9"), &installed), Ok(ResolutionResult::NoMatch));
    assert_eq!(resolve_declared(Some(""), &installed), Err(ResolveError::EmptyConstraint));
}
