//! The analysis of a whole project, from the texts of its files.

use vstd::hash_set::StringHashSet;
use vstd::prelude::*;

use crate::diff::ChangedLines;
use crate::extract::{extract_module, module_facts};
use crate::link::scope_of;
use crate::model::{views, ModuleInfo, ModuleView, Options};
use crate::path::has_extension;
use crate::prepass::PlaceView;
use crate::report::{analyze_modules, project_of, reports_on, Report};
use crate::syntax::{parser_output, tree_in};
use crate::workspace::{build, with_configs, with_packages, ConfigFile, ConfigView, SpecView};

verus! {

/// A source file: its path, its path relative to the analyzed root, its text.
#[derive(Debug)]
pub struct SourceFile {
    pub path: String,
    pub rel: String,
    pub text: String,
}

#[verifier::ext_equal]
pub struct FileView {
    pub path: Seq<char>,
    pub rel: Seq<char>,
    pub text: Seq<char>,
}

impl View for SourceFile {
    type V = FileView;

    open spec fn view(&self) -> FileView {
        FileView { path: self.path@, rel: self.rel@, text: self.text@ }
    }
}

/// The facts about a file.
pub open spec fn file_facts(f: FileView, specs: SpecView, existing: Set<Seq<char>>) -> ModuleView {
    let out = tree_in(parser_output(f.text, has_extension(f.path, ".tsx"@)));
    module_facts(out.0, out.1, f.rel, f.text, PlaceView { path: f.path, specs, existing })
}

pub open spec fn all_facts(fs: Seq<FileView>, specs: SpecView, existing: Set<Seq<char>>) -> Seq<
    ModuleView,
> {
    Seq::new(fs.len(), |i: int| file_facts(fs[i], specs, existing))
}

/// What the configuration files of a project say about specifiers.
pub open spec fn project_specs(configs: Seq<ConfigView>) -> SpecView {
    with_configs(with_packages(configs), configs)
}

/// The paths of a list.
pub open spec fn path_set(list: Seq<Seq<char>>) -> Set<Seq<char>>
    decreases list.len(),
{
    if list.len() == 0 {
        Set::empty()
    } else {
        path_set(list.drop_last()).insert(list.last())
    }
}

/// The paths of a list.
pub fn file_set(list: &Vec<String>) -> (r: StringHashSet)
    ensures
        r@ == path_set(views(list@)),
{
    let ghost all = views(list@);
    let mut out: StringHashSet = StringHashSet::new();
    let mut i: usize = 0;
    while i < list.len()
        invariant
            all == views(list@),
            i <= list@.len(),
            out@ == path_set(all.take(i as int)),
        decreases list@.len() - i,
    {
        let _ = out.insert(list[i].clone());
        proof {
            assert(all.take(i + 1).drop_last() =~= all.take(i as int));
            assert(all.take(i + 1).last() == list@[i as int]@);
        }
        i += 1;
    }
    assert(all.take(i as int) =~= all);
    out
}

/// Analyzes a project. `existing` lists the files that exist among those that
/// imports may mean; `changed` restricts what is reported.
pub fn analyze(
    files: &Vec<SourceFile>,
    configs: &Vec<ConfigFile>,
    existing: &Vec<String>,
    changed: &Option<ChangedLines>,
    opts: &Options,
) -> (report: Report)
    ensures
        reports_on(
            report,
            project_of(
                all_facts(
                    views(files@),
                    project_specs(views(configs@)),
                    path_set(views(existing@)),
                ),
            ),
            scope_of(*opts, *changed),
        ),
{
    let specs = build(configs);
    let known = file_set(existing);
    let ghost fs = views(files@);
    let mut modules: Vec<ModuleInfo> = Vec::new();
    let mut i: usize = 0;
    while i < files.len()
        invariant
            fs == views(files@),
            i <= files@.len(),
            modules@.len() == i,
            forall|j: int|
                0 <= j < i ==> (#[trigger] modules@[j])@ == file_facts(fs[j], specs@, known@),
        decreases files@.len() - i,
    {
        let f = &files[i];
        modules.push(
            extract_module(f.path.as_str(), f.rel.as_str(), f.text.as_str(), &specs, &known),
        );
        i += 1;
    }
    assert(views(modules@) =~= all_facts(fs, specs@, known@));
    analyze_modules(&modules, changed, opts)
}

} // verus!
