use ffirs_commands::cmd_builder::CmdBuilder;
use ffirs_commands::cmd_tree::CmdNode;
use ffirs_commands::cmd_tree_builder::{CmdTreeBuilder, CmdTreeBuilderBranched, CmdTreeBuilderParallel};
use ffirs_commands::cmd_tree_builder_ext::CmdTreeBuilderExt;
use ffirs_commands::error::CmdError;
use ffirs_commands::matchers::{ExactMatcher, NodeMatcher, SignedMatcher, UnsignedMatcher};

fn literal_of(n: &CmdNode) -> &str {
    match &n.matcher {
        NodeMatcher::Exact(m) => m.literal(),
        other => panic!("not an exact matcher: {:?}", other),
    }
}

#[test]
fn test_builder_simple_branch() {
    let root = CmdTreeBuilder::from_consumer(|builder| {
        builder.exact("root").signed().signed();
        Ok(())
    })
    .unwrap()
    .build()
    .unwrap();

    assert_eq!(literal_of(&root), "root");
    assert_eq!(root.children.len(), 1);
    assert!(matches!(root.children[0].matcher, NodeMatcher::Signed(SignedMatcher)));
    assert_eq!(root.children[0].children.len(), 1);
    assert!(root.children[0].children[0].children.is_empty());
}

#[test]
fn test_builder_parallel() {
    let root = CmdTreeBuilder::from_consumer(|builder| {
        let mut add = CmdTreeBuilderBranched::new();
        add.exact("add").signed().signed();
        let mut neg = CmdTreeBuilderBranched::new();
        neg.exact("neg").signed();
        let mut level = CmdTreeBuilderParallel::new();
        level.branch(add)?.branch(neg)?;
        builder.exact("root").flat(level)?;
        Ok(())
    })
    .unwrap()
    .build()
    .unwrap();

    assert_eq!(root.children.len(), 2);

    let branch_add = &root.children[0];
    assert_eq!(literal_of(branch_add), "add");
    assert_eq!(branch_add.children.len(), 1);
    assert_eq!(branch_add.children[0].children.len(), 1);
    assert!(branch_add.children[0].children[0].children.is_empty());

    let branch_sub = &root.children[1];
    assert_eq!(literal_of(branch_sub), "neg");
    assert_eq!(branch_sub.children.len(), 1);
    assert!(branch_sub.children[0].children.is_empty());
}

#[test]
fn empty_builder_fails() {
    assert!(matches!(CmdTreeBuilder::new().build(), Err(CmdError::EmptyCmdBuilder)));
}

#[test]
fn flat_without_branches_fails() {
    let mut builder = CmdTreeBuilder::new();
    builder.exact("root");
    assert!(matches!(builder.flat(CmdTreeBuilderParallel::new()), Err(CmdError::EmptyCmdBuilder)));
}

#[test]
fn flat_on_empty_builder_fails() {
    let mut branch = CmdTreeBuilderBranched::new();
    branch.exact("a");
    let mut level = CmdTreeBuilderParallel::new();
    level.branch(branch).unwrap();
    let mut builder = CmdTreeBuilder::new();
    assert!(matches!(builder.flat(level), Err(CmdError::EmptyCmdBuilder)));
}

#[test]
fn empty_branch_fails() {
    let mut level = CmdTreeBuilderParallel::new();
    assert!(matches!(level.branch(CmdTreeBuilderBranched::new()), Err(CmdError::EmptyCmdBuilder)));
}

#[test]
fn nodes_after_flat_chain_below_the_branches() {
    let mut a = CmdTreeBuilderBranched::new();
    a.exact("a");
    let mut level = CmdTreeBuilderParallel::new();
    level.branch(a).unwrap();
    let mut builder = CmdTreeBuilder::new();
    builder.exact("root").flat(level).unwrap().unsigned();
    let root = builder.build().unwrap();
    assert_eq!(root.children.len(), 2);
    assert_eq!(literal_of(&root.children[0]), "a");
    assert!(matches!(root.children[1].matcher, NodeMatcher::Unsigned(UnsignedMatcher)));
}

#[test]
fn builder_with_named_raw_node() {
    let mut builder = CmdTreeBuilder::new();
    builder
        .raw_matcher(NodeMatcher::Exact(ExactMatcher::new(String::from("root"))))
        .raw_node(CmdNode::new_named(NodeMatcher::Signed(SignedMatcher), String::from("n")))
        .user_mention();
    let root = builder.build().unwrap();
    assert_eq!(root.children[0].name.as_deref(), Some("n"));
    assert!(matches!(root.children[0].children[0].matcher, NodeMatcher::UserMention(_)));
}

#[test]
fn cmd_builder_adds_exact_children() {
    let mut b = CmdBuilder::new_exact("root");
    let add = b.exact("add");
    add.children.push(CmdNode::new(NodeMatcher::Signed(SignedMatcher)));
    b.exact("sub");
    let root = b.build();
    assert_eq!(literal_of(&root), "root");
    assert_eq!(root.children.len(), 2);
    assert_eq!(literal_of(&root.children[0]), "add");
    assert_eq!(root.children[0].children.len(), 1);
    assert_eq!(literal_of(&root.children[1]), "sub");
    let wrapped = CmdBuilder::new(CmdNode::new_raw(NodeMatcher::Unsigned(UnsignedMatcher))).build();
    assert!(wrapped.children.is_empty());
}

#[test]
fn from_consumer_passes_on_the_consumer_error() {
    let r = CmdTreeBuilder::from_consumer(|builder| {
        builder.flat(CmdTreeBuilderParallel::new())?;
        Ok(())
    });
    assert!(matches!(r, Err(CmdError::EmptyCmdBuilder)));
}

#[test]
fn parallel_build_attaches_branches() {
    let mut a = CmdTreeBuilderBranched::new();
    a.exact("a");
    let mut level = CmdTreeBuilderParallel::new();
    level.branch(a).unwrap();
    let mut root = CmdNode::new(NodeMatcher::Exact(ExactMatcher::new(String::from("r"))));
    level.build(&mut root).unwrap();
    assert_eq!(root.children.len(), 1);
    let mut other = CmdNode::new(NodeMatcher::Unsigned(UnsignedMatcher));
    assert!(matches!(CmdTreeBuilderParallel::new().build(&mut other), Err(CmdError::EmptyCmdBuilder)));
    assert!(other.children.is_empty());
}
