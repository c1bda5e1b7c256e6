use fortress::architecture::{ArchitectureManifest, ComponentDeclaration};

fn component(id: &str, deps: &[&str]) -> ComponentDeclaration {
    ComponentDeclaration::new(id.into(), id.into(), Vec::new(), deps.iter().map(|d| d.to_string()).collect())
}

#[test]
fn mutual_dependency_reports_the_first_cycle_in_identity_order() {
    let m = ArchitectureManifest::from_components(vec![component("B", &["A"]), component("A", &["B"])]);
    let ids: Vec<&str> = m.components().iter().map(|c| c.id()).collect();
    assert_eq!(ids, vec!["A", "B"]);
    assert_eq!(m.dependency_cycles(), &[vec!["A".to_string(), "B".to_string(), "A".to_string()]]);
}

#[test]
fn acyclic_components_report_no_cycle() {
    let m = ArchitectureManifest::from_components(vec![component("B", &[]), component("A", &["B"])]);
    assert!(m.dependency_cycles().is_empty());
}

#[test]
fn self_dependency_is_a_cycle_of_one_edge() {
    let m = ArchitectureManifest::from_components(vec![component("A", &["A"])]);
    assert_eq!(m.dependency_cycles(), &[vec!["A".to_string(), "A".to_string()]]);
}

#[test]
fn cycle_starts_where_the_search_closes_it() {
    // A -> B -> C -> B: the search enters B from A and closes the cycle at B.
    let m = ArchitectureManifest::from_components(vec![
        component("A", &["B"]),
        component("B", &["C"]),
        component("C", &["B"]),
    ]);
    assert_eq!(m.dependency_cycles(), &[vec!["B".to_string(), "C".to_string(), "B".to_string()]]);
}

#[test]
fn dependency_cycle_is_one_finding_naming_its_route() {
    let m = ArchitectureManifest::from_components(vec![component("B", &["A"]), component("A", &["B"])]);
    let finding = m.evaluate_acyclic_dependencies("1.0.0-draft.1").expect("cycle finding");
    assert_eq!(finding.rule_id(), "ARCH-DEPENDENCY-001");
    assert_eq!(finding.entities(), ["A", "B", "A"]);
    assert_eq!(
        finding.message(),
        "CCG Module capability dependency graph contains a cycle: A -> B -> A."
    );
    assert_eq!(finding.path(), None);
}

#[test]
fn acyclic_dependencies_produce_no_finding() {
    let m = ArchitectureManifest::from_components(vec![component("B", &[]), component("A", &["B"])]);
    assert!(m.evaluate_acyclic_dependencies("1.0.0-draft.1").is_none());
}
