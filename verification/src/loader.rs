//! The aggregation step of the database loader: the descriptor texts that the
//! store holds, one `Option<String>` per package directory, become the
//! in-memory package collection. A directory without a descriptor file is
//! handed in as `None` and is silently skipped; reading the directories and
//! files themselves is the caller's concern.

use vstd::prelude::*;

use crate::package::Package;
use crate::package::PackageView;
use crate::parse::parse_descriptor;

verus! {

/// The collection that loading yields: one parsed record per present
/// descriptor, in directory order; absent descriptors contribute nothing.
pub open spec fn load_model(contents: Seq<Option<Seq<char>>>) -> Seq<PackageView>
    decreases contents.len(),
{
    if contents.len() == 0 {
        Seq::empty()
    } else {
        let rest = load_model(contents.drop_first());
        match contents.first() {
            Some(c) => seq![parse_descriptor(c)] + rest,
            None => rest,
        }
    }
}

/// Law: a package directory without a descriptor file is simply omitted —
/// loading with the absent entry yields exactly the collection loaded without
/// it.
pub proof fn lemma_missing_descriptor_omitted(
    pre: Seq<Option<Seq<char>>>,
    post: Seq<Option<Seq<char>>>,
)
    ensures
        load_model(pre + seq![None] + post) == load_model(pre + post),
    decreases pre.len(),
{
    if pre.len() == 0 {
        let whole = pre + seq![None::<Seq<char>>] + post;
        assert(whole.first() is None);
        assert(whole.drop_first() =~= post);
        assert(pre + post =~= post);
    } else {
        let whole = pre + seq![None::<Seq<char>>] + post;
        assert(whole.first() == pre.first());
        assert(whole.drop_first() =~= pre.drop_first() + seq![None::<Seq<char>>] + post);
        assert((pre + post).first() == pre.first());
        assert((pre + post).drop_first() =~= pre.drop_first() + post);
        lemma_missing_descriptor_omitted(pre.drop_first(), post);
    }
}

/// Builds the package collection from the descriptor texts found in the
/// store, one entry per package directory in enumeration order; `None` marks
/// a directory whose descriptor file is absent and is skipped.
pub fn populate_packages(descriptors: Vec<Option<String>>) -> (packages: Vec<Package>)
    ensures
        packages.deep_view() == load_model(descriptors.deep_view()),
{
    let ghost cs = descriptors.deep_view();
    let mut packages: Vec<Package> = Vec::new();
    let mut i: usize = 0;
    proof {
        assert(cs.skip(0) =~= cs);
        assert(packages.deep_view() =~= Seq::<PackageView>::empty());
        assert(Seq::<PackageView>::empty() + load_model(cs) =~= load_model(cs));
    }
    while i < descriptors.len()
        invariant
            i <= descriptors@.len(),
            cs == descriptors.deep_view(),
            packages.deep_view() + load_model(cs.skip(i as int)) == load_model(cs),
        decreases descriptors@.len() - i,
    {
        proof {
            assert(cs.skip(i as int).first() == cs[i as int]);
            assert(cs.skip(i as int).drop_first() =~= cs.skip(i as int + 1));
        }
        let ghost pre = packages.deep_view();
        match &descriptors[i] {
            Some(content) => {
                let package = Package::new(content.clone());
                packages.push(package);
                proof {
                    assert(cs[i as int] == Some(content@));
                    assert(packages.deep_view() =~= pre.push(parse_descriptor(content@)));
                    assert(pre.push(parse_descriptor(content@)) =~= pre + seq![
                        parse_descriptor(content@),
                    ]);
                    assert((pre + seq![parse_descriptor(content@)]) + load_model(
                        cs.skip(i as int + 1),
                    ) =~= pre + (seq![parse_descriptor(content@)] + load_model(
                        cs.skip(i as int + 1),
                    )));
                }
            },
            None => {
                proof {
                    assert(cs[i as int] is None);
                }
            },
        }
        i = i + 1;
    }
    proof {
        assert(cs.skip(i as int) =~= Seq::<Option<Seq<char>>>::empty());
        assert(packages.deep_view() + load_model(cs.skip(i as int)) =~= packages.deep_view());
    }
    packages
}

} // verus!
