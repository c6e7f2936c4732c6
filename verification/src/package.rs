//! The record that the descriptor parser produces for one installed package,
//! together with its mathematical view.

use vstd::prelude::*;

verus! {

/// One installed package's declared metadata: its name, its dependency
/// identifiers and its optional-dependency identifiers, each identifier
/// already normalized by the parser.
pub struct Package {
    pub name: String,
    pub dependencies: Vec<String>,
    pub opt_dependencies: Vec<String>,
}

/// The mathematical value of a `Package`: every string as a `Seq<char>`.
pub struct PackageView {
    pub name: Seq<char>,
    pub dependencies: Seq<Seq<char>>,
    pub opt_dependencies: Seq<Seq<char>>,
}

impl View for Package {
    type V = PackageView;

    open spec fn view(&self) -> PackageView {
        PackageView {
            name: self.name@,
            dependencies: self.dependencies.deep_view(),
            opt_dependencies: self.opt_dependencies.deep_view(),
        }
    }
}

impl DeepView for Package {
    type V = PackageView;

    open spec fn deep_view(&self) -> PackageView {
        self.view()
    }
}

} // verus!
