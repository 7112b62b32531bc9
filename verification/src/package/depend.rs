//! The dependency graph of the installed packages.
use crate::package::{copy_depends, depend_views, DependInfo, DependSpec, PackageInfo};
use vstd::prelude::*;

verus! {

/// A package and its dependencies.
#[derive(Debug)]
pub struct PackageDepend {
    pub name: String,
    pub info: Vec<DependInfo>,
}

/// The dependencies of each of a list of packages.
#[derive(Debug)]
pub struct DependGraph {
    pub depends: Vec<PackageDepend>,
    pub count: usize,
}

/// The graph's entries: each package's id and its dependencies.
pub open spec fn graph_view(g: DependGraph) -> Seq<(Seq<char>, Seq<DependSpec>)> {
    g.depends@.map_values(|p: PackageDepend| (p.name@, depend_views(p.info@)))
}

/// The dependency graph of the packages `data`: one entry per package, in
/// order, with its id and dependencies; `count` is the number of packages.
pub fn get_dependencies_from_list(data: &Vec<PackageInfo>) -> (r: DependGraph)
    ensures
        r.count == data@.len(),
        graph_view(r) == data@.map_values(
            |p: PackageInfo| (p.about.id@, depend_views(p.about.dependencies@)),
        ),
{
    let mut depends: Vec<PackageDepend> = Vec::new();
    let mut i: usize = 0;
    while i < data.len()
        invariant
            i <= data@.len(),
            depends@.map_values(|p: PackageDepend| (p.name@, depend_views(p.info@))) == data@.take(
                i as int,
            ).map_values(|p: PackageInfo| (p.about.id@, depend_views(p.about.dependencies@))),
        decreases data@.len() - i,
    {
        let package = &data[i];
        let ghost old_d = depends@;
        depends.push(
            PackageDepend {
                name: package.about.id.clone(),
                info: copy_depends(&package.about.dependencies),
            },
        );
        proof {
            assert(depends@.map_values(|p: PackageDepend| (p.name@, depend_views(p.info@))) =~= old_d.map_values(
                |p: PackageDepend| (p.name@, depend_views(p.info@)),
            ).push((package.about.id@, depend_views(package.about.dependencies@))));
            assert(data@.take(i + 1).map_values(
                |p: PackageInfo| (p.about.id@, depend_views(p.about.dependencies@)),
            ) =~= data@.take(i as int).map_values(
                |p: PackageInfo| (p.about.id@, depend_views(p.about.dependencies@)),
            ).push((package.about.id@, depend_views(package.about.dependencies@))));
        }
        i += 1;
    }
    proof {
        assert(data@.take(i as int) =~= data@);
    }
    DependGraph { depends, count: data.len() }
}

} // verus!
