//! Loading a manifest: where its imports are found, how their components are
//! merged, and the rule that no two components share a name.

use crate::config::component_views;
use crate::config::Component;
use crate::config::ComponentView;
use crate::config::ConfigFile;
use crate::config::ConfigFileView;
use crate::config::ImportableModule;
use crate::error::BuildError;
use crate::error::BuildErrorView;
use crate::paths::absolute_path;
use crate::paths::directory;
use crate::paths::directory_of;
use crate::paths::is_absolute;
use crate::paths::join_path;
use crate::paths::joined_path;
use crate::paths::parent_of;
use crate::paths::parent_path;
use crate::paths::str_eq;
use vstd::prelude::*;
use vstd::string::*;

verus! {

/// Whether a text ends with a given suffix.
pub open spec fn has_suffix(text: Seq<char>, suffix: Seq<char>) -> bool {
    text.len() >= suffix.len() && text.subrange(text.len() - suffix.len(), text.len() as int)
        == suffix
}

/// Whether a text ends with a given suffix.
pub fn ends_with(text: &str, suffix: &str) -> (r: bool)
    ensures
        r == has_suffix(text@, suffix@),
{
    let n = text.unicode_len();
    let m = suffix.unicode_len();
    if n < m {
        false
    } else {
        str_eq(text.substring_char(n - m, n), suffix)
    }
}

/// A path with `.toml` behind it, unless it ends in `.toml` already.
pub open spec fn with_toml_extension(path: Seq<char>) -> Seq<char> {
    if has_suffix(path, ".toml"@) {
        path
    } else {
        path + ".toml"@
    }
}

/// Puts `.toml` behind a path unless the path ends in it already.
pub fn add_toml_extension(path: String) -> (r: String)
    ensures
        r@ == with_toml_extension(path@),
{
    let mut path = path;
    if !ends_with(path.as_str(), ".toml") {
        path.append(".toml");
    }
    path
}

/// The directory against which a manifest's relative imports resolve: its
/// parent, or the manifest path itself where it has none.
pub open spec fn import_base(manifest: Seq<char>) -> Seq<char> {
    directory_of(manifest, parent_path(manifest))
}

/// Where an import of a manifest is found. An absolute import is taken as it
/// is. A relative one resolves against the manifest's directory and gets the
/// `.toml` extension if it lacks it.
pub open spec fn resolved_import(manifest: Seq<char>, import: Seq<char>) -> Seq<char> {
    if absolute_path(import) {
        import
    } else {
        with_toml_extension(joined_path(import_base(manifest), import))
    }
}

/// Resolves one import of the manifest at `manifest`.
pub fn resolve_import(manifest: &str, import: &str) -> (r: String)
    ensures
        r@ == resolved_import(manifest@, import@),
{
    if is_absolute(import) {
        import.to_owned()
    } else {
        let base = directory(manifest, parent_of(manifest));
        add_toml_extension(join_path(base.as_str(), import))
    }
}

/// The resolved paths of a run of imports, in order.
pub open spec fn resolved_imports(manifest: Seq<char>, imports: Seq<Seq<char>>) -> Seq<
    Seq<char>,
> {
    Seq::new(imports.len(), |i: int| resolved_import(manifest, imports[i]))
}

/// Resolves every import of a manifest, in the order in which it lists them.
pub fn resolve_imports(manifest: &str, config: &ConfigFile) -> (r: Vec<String>)
    ensures
        r.deep_view() == resolved_imports(manifest@, config@.requires),
{
    let mut paths: Vec<String> = Vec::new();
    let mut i: usize = 0;
    while i < config.requires.len()
        invariant
            i <= config.requires.len(),
            paths.len() == i,
            forall|j: int|
                0 <= j < i ==> paths@[j]@ == resolved_import(manifest@, config.requires@[j]@),
        decreases config.requires.len() - i,
    {
        paths.push(resolve_import(manifest, config.requires[i].as_str()));
        i += 1;
    }
    assert(paths.deep_view() =~= resolved_imports(manifest@, config@.requires));
    paths
}

/// A run of paths with every repetition of an earlier path taken out.
pub open spec fn first_occurrences(paths: Seq<Seq<char>>) -> Seq<Seq<char>>
    decreases paths.len(),
{
    if paths.len() == 0 {
        Seq::empty()
    } else {
        let front = first_occurrences(paths.drop_last());
        if paths.drop_last().contains(paths.last()) {
            front
        } else {
            front.push(paths.last())
        }
    }
}

/// Every path of a run of first occurrences occurs in the run it was taken
/// from, every path of that run occurs among them, and none occurs twice.
pub proof fn lemma_first_occurrences(paths: Seq<Seq<char>>)
    ensures
        forall|p: Seq<char>| first_occurrences(paths).contains(p) <==> paths.contains(p),
        first_occurrences(paths).no_duplicates(),
    decreases paths.len(),
{
    let kept = first_occurrences(paths);
    if paths.len() > 0 {
        let front = paths.drop_last();
        let last = paths.last();
        lemma_first_occurrences(front);
        let kept_front = first_occurrences(front);
        assert forall|p: Seq<char>| kept.contains(p) <==> paths.contains(p) by {
            if paths.contains(p) {
                let i = choose|i: int| 0 <= i < paths.len() && paths[i] == p;
                if i < front.len() {
                    assert(front[i] == p);
                    assert(front.contains(p));
                    assert(kept_front.contains(p));
                    let k = choose|k: int| 0 <= k < kept_front.len() && kept_front[k] == p;
                    assert(kept[k] == p);
                } else {
                    assert(p == last);
                    if front.contains(last) {
                        assert(kept_front.contains(last));
                    } else {
                        assert(kept[kept.len() - 1] == last);
                    }
                }
            }
            if kept.contains(p) {
                let k = choose|k: int| 0 <= k < kept.len() && kept[k] == p;
                if k < kept_front.len() {
                    assert(kept_front[k] == p);
                    assert(kept_front.contains(p));
                    assert(front.contains(p));
                    let i = choose|i: int| 0 <= i < front.len() && front[i] == p;
                    assert(paths[i] == p);
                } else {
                    assert(paths[paths.len() - 1] == p);
                }
            }
        }
        assert forall|i: int, j: int| 0 <= i < j < kept.len() implies kept[i] != kept[j] by {
            if j < kept_front.len() {
                assert(kept_front[i] != kept_front[j]);
            } else {
                assert(kept[j] == last);
                assert(!front.contains(last));
                assert(kept_front[i] == kept[i]);
                assert(kept_front.contains(kept[i]));
            }
        }
    }
}

/// Whether a path occurs in a list of paths.
pub fn contains_path(paths: &Vec<String>, path: &str) -> (r: bool)
    ensures
        r == paths.deep_view().contains(path@),
{
    let mut i: usize = 0;
    while i < paths.len()
        invariant
            i <= paths.len(),
            forall|j: int| 0 <= j < i ==> paths@[j]@ != path@,
        decreases paths.len() - i,
    {
        if str_eq(paths[i].as_str(), path) {
            assert(paths.deep_view()[i as int] == path@);
            return true;
        }
        i += 1;
    }
    assert forall|j: int| 0 <= j < paths.deep_view().len() implies paths.deep_view()[j]
        != path@ by {
        assert(paths.deep_view()[j] == paths@[j]@);
    }
    false
}

/// The modules to load, given the canonical path of every import: each path
/// once, at the place of its first occurrence.
pub fn distinct_imports(canonical: &Vec<String>) -> (r: Vec<String>)
    ensures
        r.deep_view() == first_occurrences(canonical.deep_view()),
        r.deep_view().no_duplicates(),
        forall|p: Seq<char>| r.deep_view().contains(p) <==> canonical.deep_view().contains(p),
{
    let mut kept: Vec<String> = Vec::new();
    let mut i: usize = 0;
    assert(canonical.deep_view().take(0) =~= Seq::<Seq<char>>::empty());
    assert(kept.deep_view() =~= Seq::<Seq<char>>::empty());
    while i < canonical.len()
        invariant
            i <= canonical.len(),
            kept.deep_view() == first_occurrences(canonical.deep_view().take(i as int)),
        decreases canonical.len() - i,
    {
        let ghost seen = canonical.deep_view().take(i as int);
        let ghost next = canonical.deep_view().take(i + 1);
        let ghost before = kept.deep_view();
        proof {
            assert(next.drop_last() =~= seen);
            assert(next.last() == canonical@[i as int]@);
            lemma_first_occurrences(seen);
        }
        if !contains_path(&kept, canonical[i].as_str()) {
            kept.push(canonical[i].clone());
            assert(kept.deep_view() =~= before.push(canonical@[i as int]@));
        }
        i += 1;
    }
    proof {
        assert(canonical.deep_view().take(canonical.len() as int) =~= canonical.deep_view());
        lemma_first_occurrences(canonical.deep_view());
    }
    kept
}

/// Merges the components of one imported module into a manifest, behind those
/// that the manifest holds already. Nothing else of the manifest changes.
pub fn merge_module(config: &mut ConfigFile, module: ImportableModule)
    ensures
        final(config)@ == (ConfigFileView {
            components: old(config)@.components + module@,
            ..old(config)@
        }),
{
    let mut incoming = module.components;
    config.components.append(&mut incoming);
    assert(component_views(config.components@) =~= component_views(old(config).components@)
        + component_views(module.components@));
}

/// The components of a run of modules, one module after the other.
pub open spec fn module_components(modules: Seq<ImportableModule>) -> Seq<ComponentView>
    decreases modules.len(),
{
    if modules.len() == 0 {
        Seq::empty()
    } else {
        module_components(modules.drop_last()) + modules.last()@
    }
}

/// Merges every imported module into a manifest, in the order given.
pub fn merge_modules(config: &mut ConfigFile, modules: Vec<ImportableModule>)
    ensures
        final(config)@ == (ConfigFileView {
            components: old(config)@.components + module_components(modules@),
            ..old(config)@
        }),
{
    let ghost all = modules@;
    let ghost start = config@;
    let mut rest = modules;
    assert(all.skip(0) =~= all);
    assert(start.components + module_components(all.take(0)) =~= start.components);
    while rest.len() > 0
        invariant
            rest@.len() <= all.len(),
            rest@ == all.skip(all.len() - rest@.len()),
            config@ == (ConfigFileView {
                components: start.components + module_components(
                    all.take(all.len() - rest@.len()),
                ),
                ..start
            }),
        decreases rest.len(),
    {
        let ghost k = all.len() - rest@.len();
        let module = rest.remove(0);
        proof {
            assert(module == all[k]);
            assert(rest@ =~= all.skip(k + 1));
            assert(all.take(k + 1).drop_last() =~= all.take(k));
            assert(all.take(k + 1).last() == all[k]);
        }
        merge_module(config, module);
        assert(start.components + module_components(all.take(k)) + all[k]@
            =~= start.components + module_components(all.take(k + 1)));
    }
    assert(all.take(all.len() as int) =~= all);
}

/// The names of a run of components, in order.
pub open spec fn component_names(components: Seq<ComponentView>) -> Seq<Seq<char>> {
    Seq::new(components.len(), |i: int| components[i].name)
}

/// Whether the name at `j` was used by an earlier component.
pub open spec fn repeats_earlier(names: Seq<Seq<char>>, j: int) -> bool {
    exists|i: int| 0 <= i < j && names[i] == names[j]
}

/// Whether `j` is the first place at which a name comes up a second time.
pub open spec fn first_repeat_at(names: Seq<Seq<char>>, j: int) -> bool {
    &&& 0 <= j < names.len()
    &&& repeats_earlier(names, j)
    &&& forall|k: int| 0 <= k < j ==> !repeats_earlier(names, k)
}

/// Checks that no two components share a name.
///
/// Fails exactly when some name is used twice, and then with
/// `DuplicateComponentName` for the first name that comes up a second time.
pub fn check_duplicates(components: &Vec<Component>) -> (r: Result<(), BuildError>)
    ensures
        match r {
            Ok(_) => component_names(component_views(components@)).no_duplicates(),
            Err(e) => exists|j: int|
                first_repeat_at(component_names(component_views(components@)), j) && e@
                    == BuildErrorView::DuplicateComponentName(
                    #[trigger] component_names(component_views(components@))[j],
                ),
        },
{
    let ghost names = component_names(component_views(components@));
    let mut j: usize = 0;
    while j < components.len()
        invariant
            j <= components.len(),
            names == component_names(component_views(components@)),
            names.len() == components.len(),
            forall|k: int| 0 <= k < j ==> !repeats_earlier(names, k),
        decreases components.len() - j,
    {
        let mut i: usize = 0;
        while i < j
            invariant
                i <= j < components.len(),
                names == component_names(component_views(components@)),
                names.len() == components.len(),
                forall|k: int| 0 <= k < j ==> !repeats_earlier(names, k),
                forall|h: int| 0 <= h < i ==> names[h] != names[j as int],
            decreases j - i,
        {
            if components[i].name == components[j].name {
                assert(names[i as int] == names[j as int]);
                assert(repeats_earlier(names, j as int));
                assert(first_repeat_at(names, j as int));
                return Err(BuildError::DuplicateComponentName(components[j].name.clone()));
            }
            i += 1;
        }
        assert(!repeats_earlier(names, j as int));
        j += 1;
    }
    assert forall|a: int, b: int| 0 <= a < b < names.len() implies names[a] != names[b] by {
        assert(!repeats_earlier(names, b));
    }
    Ok(())
}

/// A manifest fails the duplicate check if and only if two of its components
/// share a name, and the error then names a component that is defined twice.
pub proof fn lemma_duplicates_rejected(names: Seq<Seq<char>>)
    ensures
        (exists|j: int| first_repeat_at(names, j)) <==> !names.no_duplicates(),
        forall|j: int|
            first_repeat_at(names, j) ==> exists|i: int|
                0 <= i < j && #[trigger] names[i] == names[j],
{
    if !names.no_duplicates() {
        let (a, b) = choose|a: int, b: int|
            0 <= a < names.len() && 0 <= b < names.len() && a != b && names[a] == names[b];
        let hi = if a < b { b } else { a };
        let lo = if a < b { a } else { b };
        assert(names[lo] == names[hi]);
        assert(repeats_earlier(names, hi));
        lemma_least_repeat(names, hi);
    }
    if exists|j: int| first_repeat_at(names, j) {
        let j = choose|j: int| first_repeat_at(names, j);
        let i = choose|i: int| 0 <= i < j && names[i] == names[j];
        assert(names[i] == names[j]);
    }
}

proof fn lemma_least_repeat(names: Seq<Seq<char>>, hi: int)
    requires
        0 <= hi < names.len(),
        repeats_earlier(names, hi),
    ensures
        exists|j: int| first_repeat_at(names, j),
    decreases hi,
{
    if forall|k: int| 0 <= k < hi ==> !repeats_earlier(names, k) {
        assert(first_repeat_at(names, hi));
    } else {
        let k = choose|k: int| 0 <= k < hi && repeats_earlier(names, k);
        lemma_least_repeat(names, k);
    }
}

} // verus!
