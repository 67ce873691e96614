use ffirs_commands::cmd_creator::{cmd_branch_from_string, CmdCreator, CmdCreatorBranchIter};
use ffirs_commands::error::CmdError;
use ffirs_commands::matchers::{ExactMatcher, NodeMatcher};

#[test]
fn test_creator_iter_simple() {
    let mut iter = CmdCreatorBranchIter::new("root add sub".into());

    let mut next = iter.next();
    assert!(next.is_some());
    match next.unwrap().unwrap().0 {
        NodeMatcher::Exact(m) => assert_eq!(m, ExactMatcher::new("root".into())),
        other => panic!("unexpected {:?}", other),
    }

    next = iter.next();
    assert!(next.is_some());
    match next.unwrap().unwrap().0 {
        NodeMatcher::Exact(m) => assert_eq!(m, ExactMatcher::new("add".into())),
        other => panic!("unexpected {:?}", other),
    }

    next = iter.next();
    assert!(next.is_some());
    match next.unwrap().unwrap().0 {
        NodeMatcher::Exact(m) => assert_eq!(m, ExactMatcher::new("sub".into())),
        other => panic!("unexpected {:?}", other),
    }

    assert!(iter.next().is_none());
}

#[test]
fn test_creator_iter_complex() {
    let mut iter = CmdCreatorBranchIter::new("root <a: Signed> <b: UserMention>".into());

    let next = iter.next();
    assert!(next.is_some());
    match next.unwrap().unwrap().0 {
        NodeMatcher::Exact(m) => assert_eq!(m, ExactMatcher::new("root".into())),
        other => panic!("unexpected {:?}", other),
    }

    let next = iter.next();
    assert!(next.is_some());
    let next = next.unwrap().unwrap();
    assert!(matches!(next.0, NodeMatcher::Signed(_)));
    assert_eq!(&next.1.unwrap(), "a");

    let next = iter.next();
    assert!(next.is_some());
    let next = next.unwrap().unwrap();
    assert!(matches!(next.0, NodeMatcher::UserMention(_)));
    assert_eq!(&next.1.unwrap(), "b");

    assert!(iter.next().is_none());
}

#[test]
fn test_creator_iter_panic() {
    let mut iter = CmdCreatorBranchIter::new("root <a: Garbage>".into());

    let next = iter.next();
    assert!(next.is_some());
    match next.unwrap().unwrap().0 {
        NodeMatcher::Exact(m) => assert_eq!(m, ExactMatcher::new("root".into())),
        other => panic!("unexpected {:?}", other),
    }

    let next = iter.next();
    assert!(next.is_some());
    assert!(next.unwrap().is_err());
}

#[test]
fn make_matcher_names_unknown_tag() {
    match CmdCreatorBranchIter::make_matcher("Garbage") {
        Err(CmdError::CreatorUnknownMatcher { ty }) => assert_eq!(ty, "Garbage"),
        other => panic!("unexpected {:?}", other),
    }
    assert!(matches!(CmdCreatorBranchIter::make_matcher("Unsigned"), Ok(NodeMatcher::Unsigned(_))));
}

#[test]
fn create_cmd_branch_chains_items() {
    let root = CmdCreator::create_cmd_branch("root <a: Signed> <b: UserMention>").unwrap();
    assert!(matches!(&root.matcher, NodeMatcher::Exact(m) if m.literal() == "root"));
    assert!(root.name.is_none());
    let a = &root.children[0];
    assert!(matches!(a.matcher, NodeMatcher::Signed(_)));
    assert_eq!(a.name.as_deref(), Some("a"));
    let b = &a.children[0];
    assert!(matches!(b.matcher, NodeMatcher::UserMention(_)));
    assert_eq!(b.name.as_deref(), Some("b"));
    assert!(b.children.is_empty());
}

#[test]
fn create_cmd_branch_errors() {
    match CmdCreator::create_cmd_branch("root <a: Garbage> <b: Signed>") {
        Err(CmdError::CreatorUnknownMatcher { ty }) => assert_eq!(ty, "Garbage"),
        other => panic!("unexpected {:?}", other.map(|n| n.children.len())),
    }
    assert!(matches!(CmdCreator::create_cmd_branch("   "), Err(CmdError::EmptyCmdBuilder)));
    assert!(matches!(CmdCreator::create_cmd_branch(""), Err(CmdError::EmptyCmdBuilder)));
}

#[test]
fn bare_segment_is_named_exact() {
    let root = CmdCreator::create_cmd_branch("go <fast>").unwrap();
    let n = &root.children[0];
    assert!(matches!(&n.matcher, NodeMatcher::Exact(m) if m.literal() == "fast"));
    assert_eq!(n.name.as_deref(), Some("fast"));
}

#[test]
fn same_declaration_builds_same_tree() {
    let a = CmdCreator::create_cmd_branch("root add <n: Unsigned> <who: UserMention>").unwrap();
    let b = CmdCreator::create_cmd_branch("root add <n: Unsigned> <who: UserMention>").unwrap();
    assert!(a.same_structure(&b));
    let c = CmdCreator::create_cmd_branch("root add <n: Signed> <who: UserMention>").unwrap();
    assert!(!a.same_structure(&c));
}

#[test]
fn branch_from_string_gives_unbuilt_builder() {
    let builder = cmd_branch_from_string("a <x: Unsigned>").unwrap();
    let root = builder.build().unwrap();
    assert_eq!(root.children.len(), 1);
}
