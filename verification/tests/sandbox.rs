use std::collections::BTreeMap;

use adocpdf::error::DomainError;
use adocpdf::sandbox::{PathResolver, ProjectRoot, ResolutionError, SandboxedPath};

struct FakeResolver {
    locations: BTreeMap<String, String>,
    directories: Vec<String>,
}

impl FakeResolver {
    fn new() -> Self {
        Self { locations: BTreeMap::new(), directories: Vec::new() }
    }

    fn resolving(mut self, spelled: &str, to: &str) -> Self {
        self.locations.insert(spelled.to_owned(), to.to_owned());
        self
    }

    fn with_directory(mut self, path: &str) -> Self {
        self.directories.push(path.to_owned());
        self
    }
}

impl PathResolver for FakeResolver {
    fn resolve(&self, path: &str) -> Result<String, ResolutionError> {
        self.locations.get(path).cloned().ok_or(ResolutionError::NotFound)
    }

    fn is_directory(&self, path: &str) -> bool {
        self.directories.iter().any(|d| d == path)
    }
}

fn root_of(resolver: &FakeResolver, spelled: &str) -> ProjectRoot {
    ProjectRoot::new(spelled, resolver).unwrap()
}

fn project_resolver() -> FakeResolver {
    FakeResolver::new()
        .resolving("project", "/home/user/project")
        .with_directory("/home/user/project")
}

#[test]
fn a_path_inside_the_root_is_accepted() {
    let resolver = project_resolver().resolving("project/book.adoc", "/home/user/project/book.adoc");
    let root = root_of(&resolver, "project");

    let path = SandboxedPath::resolve("project/book.adoc", &root, &resolver).unwrap();

    assert_eq!(path.as_path(), "/home/user/project/book.adoc");
}

#[test]
fn a_traversal_path_that_escapes_is_refused() {
    let resolver = project_resolver().resolving("project/../../etc/passwd", "/etc/passwd");
    let root = root_of(&resolver, "project");

    let error = SandboxedPath::resolve("project/../../etc/passwd", &root, &resolver).unwrap_err();

    assert!(matches!(error, DomainError::PathOutsideRoot { .. }));
}

#[test]
fn a_traversal_path_that_stays_inside_is_accepted() {
    let resolver = project_resolver()
        .resolving("project/chapters/../book.adoc", "/home/user/project/book.adoc");
    let root = root_of(&resolver, "project");

    assert!(
        SandboxedPath::resolve("project/chapters/../book.adoc", &root, &resolver).is_ok(),
        "traversal is only a problem when it leaves the root"
    );
}

#[test]
fn a_symlink_pointing_outward_is_refused() {
    let resolver = project_resolver().resolving("project/link.adoc", "/etc/shadow");
    let root = root_of(&resolver, "project");

    let error = SandboxedPath::resolve("project/link.adoc", &root, &resolver).unwrap_err();

    assert!(
        matches!(error, DomainError::PathOutsideRoot { .. }),
        "a path spelled inside the root but resolving outside it must be refused"
    );
}

#[test]
fn a_refusal_does_not_reveal_where_the_path_resolved_to() {
    let resolver = project_resolver().resolving("project/link.adoc", "/etc/shadow");
    let root = root_of(&resolver, "project");

    let error = SandboxedPath::resolve("project/link.adoc", &root, &resolver).unwrap_err();

    let message = error.message();
    assert!(!message.contains("shadow"), "the resolved target must not appear in the message, got: {message}");
    assert!(message.contains("project/link.adoc"), "got: {message}");
}

#[test]
fn sandbox_an_absolute_path_outside_the_root_is_refused() {
    let resolver = project_resolver().resolving("/etc/passwd", "/etc/passwd");
    let root = root_of(&resolver, "project");

    let error = SandboxedPath::resolve("/etc/passwd", &root, &resolver).unwrap_err();

    assert!(matches!(error, DomainError::PathOutsideRoot { .. }));
}

#[test]
fn an_unresolvable_path_is_refused_the_same_way_as_one_outside() {
    let resolver = project_resolver();
    let root = root_of(&resolver, "project");

    let error = SandboxedPath::resolve("project/missing.adoc", &root, &resolver).unwrap_err();

    assert!(
        matches!(error, DomainError::PathOutsideRoot { .. }),
        "reporting these differently would disclose whether a path exists outside the root"
    );
}

#[test]
fn sandbox_a_sibling_directory_with_a_similar_name_is_outside_the_root() {
    let resolver =
        project_resolver().resolving("project-old/book.adoc", "/home/user/project-old/book.adoc");
    let root = root_of(&resolver, "project");

    let error = SandboxedPath::resolve("project-old/book.adoc", &root, &resolver).unwrap_err();

    assert!(
        matches!(error, DomainError::PathOutsideRoot { .. }),
        "containment must compare path components, not string prefixes"
    );
}

#[test]
fn sandbox_a_root_that_does_not_exist_is_refused() {
    let resolver = FakeResolver::new();

    let error = ProjectRoot::new("nowhere", &resolver).unwrap_err();

    assert_eq!(error, DomainError::RootNotADirectory { root: "nowhere".to_owned() });
}

#[test]
fn a_root_that_is_not_a_directory_is_refused() {
    let resolver = FakeResolver::new().resolving("book.adoc", "/home/user/book.adoc");

    let error = ProjectRoot::new("book.adoc", &resolver).unwrap_err();

    assert!(matches!(error, DomainError::RootNotADirectory { .. }));
}

#[test]
fn a_refusal_names_the_root_in_effect() {
    let resolver = project_resolver().resolving("/etc/passwd", "/etc/passwd");
    let root = root_of(&resolver, "project");

    let error = SandboxedPath::resolve("/etc/passwd", &root, &resolver).unwrap_err();

    assert!(error.message().contains("project"), "the boundary must never be ambiguous, got: {}", error.message());
}

#[test]
fn containment_compares_whole_components() {
    let resolver = project_resolver();
    let root = root_of(&resolver, "project");

    assert!(root.contains("/home/user/project"));
    assert!(root.contains("/home/user/project/"));
    assert!(root.contains("/home/user//project/./a.adoc"));
    assert!(!root.contains("/home/user/projectx"));
    assert!(!root.contains("/home/user"));
    assert!(!root.contains("home/user/project/a.adoc"), "a relative path is not under an absolute root");
    assert_eq!(root.path(), "/home/user/project");
    assert_eq!(root.as_requested(), "project");
}

#[test]
fn a_root_is_made_from_the_resolvers_answers() {
    let root = ProjectRoot::from_answers("project", Ok("/home/user/project".to_owned()), true).unwrap();
    assert_eq!(root.path(), "/home/user/project");
    assert_eq!(root.as_requested(), "project");

    let refused = DomainError::RootNotADirectory { root: "project".to_owned() };
    assert_eq!(ProjectRoot::from_answers("project", Ok("/home/user/project".to_owned()), false), Err(refused.clone()));
    assert_eq!(ProjectRoot::from_answers("project", Err(ResolutionError::NotFound), true), Err(refused));
}

#[test]
fn a_path_is_confined_by_where_it_resolved() {
    let resolver = project_resolver();
    let root = root_of(&resolver, "project");

    let inside = SandboxedPath::confine("book.adoc", &root, Ok("/home/user/project/book.adoc".to_owned())).unwrap();
    assert_eq!(inside.as_path(), "/home/user/project/book.adoc");
    assert_eq!(inside.as_requested(), "book.adoc");

    let refused = DomainError::PathOutsideRoot { requested: "book.adoc".to_owned(), root: "project".to_owned() };
    assert_eq!(
        SandboxedPath::confine("book.adoc", &root, Ok("/home/user/projects/book.adoc".to_owned())),
        Err(refused.clone()),
        "a sibling whose name merely starts like the root is outside it"
    );
    assert_eq!(SandboxedPath::confine("book.adoc", &root, Err(ResolutionError::NotFound)), Err(refused));
}
