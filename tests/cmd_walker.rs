use ffirs_commands::cmd_manager::CmdManager;
use ffirs_commands::cmd_tree::CmdNode;
use ffirs_commands::error::CmdError;
use ffirs_commands::matchers::{
    ExactMatcher, FragMatcher, NodeMatcher, SignedMatcher, UnsignedMatcher,
};
use ffirs_commands::type_identity::TypeIdentity;

fn node(matcher: NodeMatcher, children: Vec<CmdNode>) -> CmdNode {
    CmdNode { matcher, children, name: None }
}

fn exact(literal: &str) -> NodeMatcher {
    NodeMatcher::Exact(ExactMatcher::new(String::from(literal)))
}

fn make_tree() -> CmdNode {
    node(
        exact("root"),
        vec![
            node(
                exact("add"),
                vec![node(
                    NodeMatcher::Signed(SignedMatcher),
                    vec![node(NodeMatcher::Unsigned(UnsignedMatcher), vec![])],
                )],
            ),
            node(
                exact("add"),
                vec![node(exact("infty"), vec![node(NodeMatcher::Signed(SignedMatcher), vec![])])],
            ),
            node(exact("sub"), vec![]),
        ],
    )
}

fn literal_of(n: &CmdNode) -> &str {
    match &n.matcher {
        NodeMatcher::Exact(m) => m.literal(),
        other => panic!("not an exact matcher: {:?}", other),
    }
}

#[test]
fn test_tree_simple() {
    let cmd_root = make_tree();

    let frags = vec!["root".to_owned(), "sub".to_owned()];
    let path = CmdManager::walk_command_tree(&cmd_root, &frags).unwrap();

    assert_eq!(path.len(), 2);
    assert_eq!(path[0].matcher.fragment_type_id(), TypeIdentity::Unit);
    assert_eq!(path[1].matcher.fragment_type_id(), TypeIdentity::Unit);

    assert_eq!(literal_of(path[0]), "root");
    assert_eq!(literal_of(path[1]), "sub");
}

#[test]
fn test_simple_frag_leftover() {
    let cmd_root = make_tree();

    let frags = vec!["root".to_owned(), "sub".to_owned(), "garbage".to_owned()];
    let path = CmdManager::walk_command_tree(&cmd_root, &frags);

    assert!(path.is_some());
    assert_eq!(path.unwrap().len(), 2)
}

#[test]
fn test_tree_complex() {
    let cmd_root = make_tree();

    let frags = vec!["root".to_owned(), "add".to_owned(), "-12".to_owned(), "42".to_owned()];
    let path = CmdManager::walk_command_tree(&cmd_root, &frags).unwrap();

    assert_eq!(path.len(), 4);
    assert_eq!(path[0].matcher.fragment_type_id(), TypeIdentity::Unit);
    assert_eq!(path[1].matcher.fragment_type_id(), TypeIdentity::Unit);
    assert_eq!(path[2].matcher.fragment_type_id(), TypeIdentity::I64);
    assert_eq!(path[3].matcher.fragment_type_id(), TypeIdentity::U64);

    assert_eq!(literal_of(path[0]), "root");
    assert_eq!(literal_of(path[1]), "add");
    assert!(matches!(path[2].matcher, NodeMatcher::Signed(SignedMatcher)));
    assert!(matches!(path[3].matcher, NodeMatcher::Unsigned(UnsignedMatcher)));
    assert!(std::ptr::eq(path[1], &cmd_root.children[0]));
}

#[test]
fn test_tree_complex2() {
    let cmd_root = make_tree();

    let frags = vec!["root".to_owned(), "add".to_owned(), "infty".to_owned(), "42".to_owned()];
    let path = CmdManager::walk_command_tree(&cmd_root, &frags).unwrap();

    assert_eq!(path.len(), 4);
    assert_eq!(path[0].matcher.fragment_type_id(), TypeIdentity::Unit);
    assert_eq!(path[1].matcher.fragment_type_id(), TypeIdentity::Unit);
    assert_eq!(path[2].matcher.fragment_type_id(), TypeIdentity::Unit);
    assert_eq!(path[3].matcher.fragment_type_id(), TypeIdentity::I64);

    assert_eq!(literal_of(path[0]), "root");
    assert_eq!(literal_of(path[1]), "add");
    assert_eq!(literal_of(path[2]), "infty");
    assert!(matches!(path[3].matcher, NodeMatcher::Signed(SignedMatcher)));
    assert!(std::ptr::eq(path[1], &cmd_root.children[1]));
}

#[test]
fn test_tree_invalid() {
    let cmd_root = make_tree();

    let frags = vec!["garbage".to_owned()];
    assert!(CmdManager::walk_command_tree(&cmd_root, &frags).is_none());

    let frags = vec!["root".to_owned(), "add".to_owned()];
    assert!(CmdManager::walk_command_tree(&cmd_root, &frags).is_none());

    let frags = vec!["root".to_owned(), "add".to_owned(), "-12".to_owned(), "-12".to_owned()];
    assert!(CmdManager::walk_command_tree(&cmd_root, &frags).is_none());
}

#[test]
fn walk_with_no_fragments_finds_nothing() {
    let cmd_root = make_tree();
    let frags: Vec<String> = vec![];
    assert!(CmdManager::walk_command_tree(&cmd_root, &frags).is_none());
}

#[test]
fn find_path_from_raw_text() {
    let cmd_root = make_tree();
    let path = CmdManager::try_find_cmd_path(&cmd_root, String::from("root add infty 42")).unwrap();
    assert_eq!(path.len(), 4);
    assert_eq!(literal_of(path[2]), "infty");
}

#[test]
fn find_path_reports_no_path() {
    let cmd_root = make_tree();
    let r = CmdManager::try_find_cmd_path(&cmd_root, String::from("root mul 1 2"));
    assert!(matches!(r, Err(CmdError::NoPathFound)));
}

#[test]
fn find_path_reports_parse_error_before_walking() {
    let cmd_root = make_tree();
    let r = CmdManager::try_find_cmd_path(&cmd_root, String::from("root sub 'open"));
    match r {
        Err(CmdError::ParsingError { start, end, .. }) => {
            assert_eq!(start, 9);
            assert_eq!(end, 13);
        }
        other => panic!("unexpected {:?}", other.map(|p| p.len())),
    }
}

#[test]
fn filter_keeps_matching_children_in_order() {
    let cmd_root = make_tree();
    let adds = cmd_root.filter("add");
    assert_eq!(adds.len(), 2);
    assert!(std::ptr::eq(adds[0], &cmd_root.children[0]));
    assert!(std::ptr::eq(adds[1], &cmd_root.children[1]));
    assert_eq!(cmd_root.filter("sub").len(), 1);
    assert!(cmd_root.filter("root").is_empty());
}
