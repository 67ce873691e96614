use vstd::prelude::*;

use crate::cmd_tree::{nodes, CmdNode};
use crate::cmd_walker::frag_views;
use crate::mappers::{gives, AnyMapper, Downcast, FragmentMapper, MapperOutput, OutputValue};
use crate::matchers::FragMatcher;
use crate::type_identity::{TypeIdentity, TypeKey};
use crate::type_map::TypeMap;

verus! {

/// The values that the named nodes of `path` bind, in order: each node's
/// fragment mapped by the mapper registered for its matcher's type. `None`
/// if a mapper hands out nothing.
pub open spec fn bindings(
    reg: Map<TypeIdentity, AnyMapper>,
    path: Seq<CmdNode>,
    frags: Seq<Seq<char>>,
) -> Option<Seq<(Seq<char>, OutputValue)>>
    decreases path.len(),
{
    if path.len() == 0 {
        Some(Seq::empty())
    } else {
        let node = path.last();
        match bindings(reg, path.drop_last(), frags) {
            None => None,
            Some(b) => match node.name {
                None => Some(b),
                Some(n) => match reg[node.matcher.identity()].mapping(frags[path.len() - 1]) {
                    Some(v) => Some(b.push((n@, v))),
                    None => None,
                },
            },
        }
    }
}

/// Every named node of `path` has a mapper registered for its type.
pub open spec fn named_types_registered(reg: Map<TypeIdentity, AnyMapper>, path: Seq<CmdNode>) -> bool {
    forall|i: int|
        0 <= i < path.len() && (#[trigger] path[i]).name is Some ==> reg.contains_key(
            path[i].matcher.identity(),
        )
}

/// Each binding as a name and a value.
pub open spec fn binding_views(v: Seq<(String, MapperOutput)>) -> Seq<(Seq<char>, OutputValue)> {
    v.map_values(|b: (String, MapperOutput)| (b.0@, b.1@))
}

/// Finds commands in a tree and converts their arguments through the
/// mappers registered for each type.
pub struct CmdManager {
    mappers: TypeMap<AnyMapper>,
}

impl CmdManager {
    pub closed spec fn wf(&self) -> bool {
        self.mappers.wf()
    }

    /// The mapper registered for each type.
    pub closed spec fn registry(&self) -> Map<TypeIdentity, AnyMapper> {
        self.mappers@
    }

    pub fn new() -> (r: Self)
        ensures
            r.wf(),
            r.registry() == Map::<TypeIdentity, AnyMapper>::empty(),
    {
        CmdManager { mappers: TypeMap::new() }
    }

    /// Registers `mapper` for `K`, replacing any mapper registered before.
    pub fn register_mapper<K: TypeKey>(self, mapper: AnyMapper) -> (r: Self)
        requires
            self.wf(),
        ensures
            r.wf(),
            r.registry() == self.registry().insert(K::spec_identity(), mapper),
    {
        let mut m = self;
        m.mappers.insert::<K>(mapper);
        m
    }

    /// The number of types with a mapper.
    pub fn mapper_count(&self) -> (r: usize)
        requires
            self.wf(),
        ensures
            r == self.registry().len(),
    {
        self.mappers.len()
    }

    /// Maps `fragment` with the mapper registered for `ty`.
    pub fn map(&self, ty: TypeIdentity, fragment: &str) -> (r: Option<MapperOutput>)
        requires
            self.wf(),
            self.registry().contains_key(ty),
        ensures
            gives(r, self.registry()[ty].mapping(fragment@)),
    {
        match self.mappers.get_raw(ty) {
            Some(m) => m.map(fragment),
            None => None,
        }
    }

    /// Maps `fragment` with the mapper registered for `T` and takes the
    /// value out as a `T`.
    pub fn map_downcast<T: TypeKey + Downcast>(&self, fragment: &str) -> (r: Option<T>)
        requires
            self.wf(),
            self.registry().contains_key(T::spec_identity()),
        ensures
            r == (match self.registry()[T::spec_identity()].mapping(fragment@) {
                Some(v) => T::spec_from_output(v),
                None => None,
            }),
    {
        match self.map(T::identity(), fragment) {
            Some(o) => T::from_output(o),
            None => None,
        }
    }

    /// The values bound by the named nodes of `path`, whose nodes matched
    /// `frags` in order.
    pub fn resolve(&self, path: &[&CmdNode], frags: &[String]) -> (r: Option<Vec<(String, MapperOutput)>>)
        requires
            self.wf(),
            path@.len() <= frags@.len(),
            named_types_registered(self.registry(), nodes(path@)),
        ensures
            match r {
                Some(v) => bindings(self.registry(), nodes(path@), frag_views(frags@)) == Some(binding_views(v@)),
                None => bindings(self.registry(), nodes(path@), frag_views(frags@)) is None,
            },
    {
        let ghost reg = self.registry();
        let ghost ps = nodes(path@);
        let ghost fs = frag_views(frags@);
        let mut out: Vec<(String, MapperOutput)> = Vec::new();
        let mut i: usize = 0;
        while i < path.len()
            invariant
                self.wf(),
                reg == self.registry(),
                ps == nodes(path@),
                fs == frag_views(frags@),
                path@.len() <= frags@.len(),
                named_types_registered(reg, ps),
                i <= path.len(),
                bindings(reg, ps.take(i as int), fs) == Some(binding_views(out@)),
            decreases path.len() - i,
        {
            let node = path[i];
            assert(ps.take(i + 1).drop_last() =~= ps.take(i as int));
            assert(ps.take(i + 1).last() == *node);
            match &node.name {
                None => {},
                Some(n) => {
                    assert(ps[i as int] == *node);
                    match self.map(node.matcher.fragment_type_id(), frags[i].as_str()) {
                        Some(v) => {
                            let ghost before = out@;
                            out.push((n.clone(), v));
                            assert(binding_views(out@) =~= binding_views(before).push((n@, out@.last().1@)));
                        },
                        None => {
                            proof {
                                lemma_bindings_none_extends(reg, ps, fs, i as int + 1);
                            }
                            return None;
                        },
                    }
                },
            }
            i += 1;
        }
        assert(ps.take(i as int) =~= ps);
        Some(out)
    }
}

/// Once a prefix of a path binds nothing, neither does any longer prefix.
proof fn lemma_bindings_none_extends(
    reg: Map<TypeIdentity, AnyMapper>,
    path: Seq<CmdNode>,
    frags: Seq<Seq<char>>,
    k: int,
)
    requires
        0 <= k <= path.len(),
        bindings(reg, path.take(k), frags) is None,
    ensures
        bindings(reg, path, frags) is None,
    decreases path.len() - k,
{
    if k < path.len() {
        assert(path.take(k + 1).drop_last() =~= path.take(k));
        lemma_bindings_none_extends(reg, path, frags, k + 1);
    } else {
        assert(path.take(k) =~= path);
    }
}

} // verus!
