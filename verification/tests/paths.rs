use archiver::paths::{is_confined, normalize, parts_match, PathError, PathPart};

fn name(text: &str) -> PathPart {
    PathPart::Name(text.to_string())
}

fn names(text: &str) -> Vec<PathPart> {
    text.split('/').map(name).collect()
}

#[test]
fn a_file_in_a_tree_is_named_from_the_top_of_the_tree() {
    let root = names("home/pets/mice");
    let path = names("home/pets/mice/jerry.txt");
    assert_eq!(normalize(&path, &root), Ok("mice/jerry.txt".to_string()));
}

#[test]
fn the_top_of_a_tree_is_named_by_its_last_component() {
    let root = names("home/pets/mice");
    assert_eq!(normalize(&root, &root), Ok("mice".to_string()));
}

#[test]
fn a_file_named_against_itself_keeps_its_file_name() {
    let path = names("pets/cat.txt");
    assert_eq!(normalize(&path, &path), Ok("cat.txt".to_string()));
}

#[test]
fn nested_names_are_joined_by_slashes() {
    let root = names("a");
    let path = names("a/b/c/d.txt");
    assert_eq!(normalize(&path, &root), Ok("a/b/c/d.txt".to_string()));
}

#[test]
fn the_parent_of_the_root_has_the_empty_name() {
    let root = names("home/pets");
    let path = names("home");
    assert_eq!(normalize(&path, &root), Ok(String::new()));
}

#[test]
fn dots_stand_in_a_name_as_they_are() {
    let root = vec![PathPart::Current];
    let path = vec![PathPart::Current, name("cat.txt")];
    assert_eq!(normalize(&path, &root), Ok("./cat.txt".to_string()));
    let up = vec![name("a"), PathPart::Parent, name("b")];
    assert_eq!(normalize(&up, &vec![name("a")]), Ok("a/../b".to_string()));
}

#[test]
fn an_anchor_that_the_root_shares_is_taken_off() {
    let root = vec![PathPart::Anchor("/".to_string()), name("pets")];
    let path = vec![PathPart::Anchor("/".to_string()), name("pets"), name("cat.txt")];
    assert_eq!(normalize(&path, &root), Ok("pets/cat.txt".to_string()));
}

#[test]
fn a_path_outside_the_parent_of_the_root_has_no_name() {
    let root = names("home/pets/mice");
    let path = names("home/dogs/rex.txt");
    assert_eq!(normalize(&path, &root), Err(PathError::NotUnderRoot));
    let short = names("home");
    assert_eq!(normalize(&short, &root), Err(PathError::NotUnderRoot));
}

#[test]
fn a_root_without_components_has_no_parent() {
    let path = names("cat.txt");
    assert_eq!(normalize(&path, &Vec::new()), Err(PathError::NotUnderRoot));
}

#[test]
fn a_component_that_is_not_text_has_no_name() {
    let root = names("pets");
    let path = vec![name("pets"), PathPart::NonText];
    assert_eq!(normalize(&path, &root), Err(PathError::Unrepresentable));
}

#[test]
fn an_anchor_that_is_left_over_has_no_name() {
    let root = vec![PathPart::Anchor("/".to_string())];
    let path = vec![PathPart::Anchor("/".to_string()), name("cat.txt")];
    assert_eq!(normalize(&path, &root), Err(PathError::Unrepresentable));
}

#[test]
fn a_component_that_is_not_text_never_matches() {
    let root = vec![PathPart::NonText, name("pets")];
    let path = vec![PathPart::NonText, name("pets"), name("cat.txt")];
    assert_eq!(normalize(&path, &root), Err(PathError::NotUnderRoot));
    assert!(!parts_match(&PathPart::NonText, &PathPart::NonText));
}

#[test]
fn components_match_by_kind_and_text() {
    assert!(parts_match(&name("a"), &name("a")));
    assert!(!parts_match(&name("a"), &name("b")));
    assert!(parts_match(&PathPart::Current, &PathPart::Current));
    assert!(parts_match(&PathPart::Parent, &PathPart::Parent));
    assert!(!parts_match(&PathPart::Parent, &PathPart::Current));
    assert!(!parts_match(&PathPart::Anchor("/".to_string()), &name("/")));
    assert!(parts_match(&PathPart::Anchor("C:".to_string()), &PathPart::Anchor("C:".to_string())));
}

#[test]
fn going_down_and_back_up_is_confined() {
    let path = vec![name("foo"), PathPart::Parent, name("bar")];
    assert!(is_confined(&path));
    assert!(is_confined(&Vec::new()));
    assert!(is_confined(&vec![PathPart::Current, name("a"), PathPart::Current]));
}

#[test]
fn going_up_past_the_start_is_not_confined() {
    let path = vec![name("foo"), PathPart::Parent, PathPart::Parent, name("bar")];
    assert!(!is_confined(&path));
    assert!(!is_confined(&vec![PathPart::Parent, name("evil.txt")]));
    let back = vec![PathPart::Parent, name("a"), name("b")];
    assert!(!is_confined(&back));
}

#[test]
fn an_anchor_is_not_confined() {
    let path = vec![PathPart::Anchor("/".to_string()), name("etc"), name("shadow")];
    assert!(!is_confined(&path));
    assert!(!is_confined(&vec![name("a"), PathPart::NonText]));
}
