//! From a specifier and the file that contains it to a file on disk.
//!
//! A specifier that starts with `./` or `../`, or at the root, is a path:
//! it is tried as a file, then with each extension, then as a directory
//! with a manifest or an index. Any other specifier names a package, which is
//! looked for in the packages directory of each directory above the
//! containing file, nearest first.
use crate::fs::{
    consistent, content_of, is_canonical_file, is_directory, is_file, lemma_lookup_is_entry,
    lookup, real_paths, text_view, EntryView, FileSystem,
};
use crate::manifest::{json_string_field, main_key, manifest_main};
use crate::model::{
    views, ModuleKind, ResolutionError, ResolutionErrorView, ResolvedModule, ResolvedModuleView,
};
use crate::path::{
    dirname, ends_in_name, has_no_slash, has_prefix, is_absolute, join, join_paths,
    lemma_normalize_append, normalize, normalize_path, parent_directory, starts_at_root,
    starts_with,
};
use vstd::prelude::*;
use vstd::string::{StrSliceExecFns, StringExecFns};

verus! {

/// What resolution may be told: the extensions to try, in order of
/// preference, and the names of the manifest and of the packages directory.
#[derive(Debug, PartialEq, Eq)]
pub struct ResolverConfig {
    pub extensions: Vec<String>,
    pub manifest_name: String,
    pub packages_directory: String,
}

pub struct ResolverConfigView {
    pub extensions: Seq<Seq<char>>,
    pub manifest_name: Seq<char>,
    pub packages_directory: Seq<char>,
}

impl View for ResolverConfig {
    type V = ResolverConfigView;

    open spec fn view(&self) -> ResolverConfigView {
        ResolverConfigView {
            extensions: views(self.extensions@),
            manifest_name: self.manifest_name@,
            packages_directory: self.packages_directory@,
        }
    }
}

/// The configuration of Node.js: `.js`, `.mjs`, `.cjs`, `.json`, with
/// `package.json` and `node_modules`.
pub open spec fn node_config() -> ResolverConfigView {
    ResolverConfigView {
        extensions: seq![".js"@, ".mjs"@, ".cjs"@, ".json"@],
        manifest_name: "package.json"@,
        packages_directory: "node_modules"@,
    }
}

impl Default for ResolverConfig {
    fn default() -> (config: ResolverConfig)
        ensures
            config@ == node_config(),
    {
        let mut extensions: Vec<String> = Vec::new();
        extensions.push(String::from_str(".js"));
        extensions.push(String::from_str(".mjs"));
        extensions.push(String::from_str(".cjs"));
        extensions.push(String::from_str(".json"));
        let config = ResolverConfig {
            extensions,
            manifest_name: String::from_str("package.json"),
            packages_directory: String::from_str("node_modules"),
        };
        assert(config@.extensions =~= node_config().extensions);
        config
    }
}

/// The name, without extension, of the file that stands for a directory.
pub open spec fn index_name() -> Seq<char> {
    "index"@
}

/// The first of `base` with an extension appended that is a file, taking the
/// extensions in order.
pub open spec fn first_with_extension(
    fs: Seq<EntryView>,
    base: Seq<char>,
    extensions: Seq<Seq<char>>,
) -> Option<Seq<char>>
    decreases extensions.len(),
{
    if extensions.len() == 0 {
        None
    } else if is_file(fs, base + extensions.first()) {
        Some(base + extensions.first())
    } else {
        first_with_extension(fs, base, extensions.drop_first())
    }
}

/// The file that `candidate` stands for by itself: the file of that very
/// name, else the first with an extension.
pub open spec fn as_file(fs: Seq<EntryView>, config: ResolverConfigView, candidate: Seq<char>)
    -> Option<Seq<char>> {
    if is_file(fs, candidate) {
        Some(candidate)
    } else {
        first_with_extension(fs, candidate, config.extensions)
    }
}

/// The entry point that the manifest of `directory` names, if the directory
/// has a manifest and the manifest names one.
pub open spec fn main_of(fs: Seq<EntryView>, config: ResolverConfigView, directory: Seq<char>)
    -> Option<Seq<char>> {
    match content_of(fs, join(directory, config.manifest_name)) {
        Some(text) => json_string_field(text, main_key()),
        None => None,
    }
}

/// The file that stands for `directory` when its manifest names `main`: the
/// entry point, taken relative to the directory, if it is a file by itself;
/// else the index of the directory with the first extension that gives a
/// file.
pub open spec fn in_directory(
    fs: Seq<EntryView>,
    config: ResolverConfigView,
    directory: Seq<char>,
    main: Option<Seq<char>>,
) -> Option<(Seq<char>, ModuleKind)> {
    let through_main = match main {
        Some(entry) => as_file(fs, config, normalize(join(directory, entry))),
        None => None,
    };
    match through_main {
        Some(path) => Some((path, ModuleKind::PackageMain)),
        None => match first_with_extension(fs, join(directory, index_name()), config.extensions) {
            Some(path) => Some((path, ModuleKind::DirectoryIndex)),
            None => None,
        },
    }
}

/// The file that `candidate` stands for, and by which rule: an exact file
/// goes before an extension, and a file before a directory.
pub open spec fn located(fs: Seq<EntryView>, config: ResolverConfigView, candidate: Seq<char>)
    -> Option<(Seq<char>, ModuleKind)> {
    match as_file(fs, config, candidate) {
        Some(path) => Some((path, ModuleKind::File)),
        None => if is_directory(fs, candidate) {
            in_directory(fs, config, candidate, main_of(fs, config, candidate))
        } else {
            None
        },
    }
}

/// Where the package `specifier` would lie if `directory` held it.
pub open spec fn package_candidate(
    config: ResolverConfigView,
    directory: Seq<char>,
    specifier: Seq<char>,
) -> Seq<char> {
    normalize(join(join(directory, config.packages_directory), specifier))
}

/// The file of the package `specifier` as held by `directory` or, failing
/// that, by the nearest directory above it that holds one.
pub open spec fn found_above(
    fs: Seq<EntryView>,
    config: ResolverConfigView,
    directory: Seq<char>,
    specifier: Seq<char>,
) -> Option<(Seq<char>, ModuleKind)>
    decreases directory.len(),
{
    match located(fs, config, package_candidate(config, directory, specifier)) {
        Some(found) => Some(found),
        None => if dirname(directory).len() < directory.len() {
            found_above(fs, config, dirname(directory), specifier)
        } else {
            None
        },
    }
}

/// Whether a specifier is a path rather than the name of a package.
pub open spec fn is_path_specifier(specifier: Seq<char>) -> bool {
    starts_with(specifier, "./"@) || starts_with(specifier, "../"@) || is_absolute(specifier)
}

/// The path that a path specifier written in `containing_file` stands for.
pub open spec fn candidate_of(specifier: Seq<char>, containing_file: Seq<char>) -> Seq<char> {
    if is_absolute(specifier) {
        normalize(specifier)
    } else {
        normalize(join(dirname(containing_file), specifier))
    }
}

/// The module at `path`, found by the rule `kind`: its identity is the real
/// path.
pub open spec fn module_at(fs: Seq<EntryView>, path: Seq<char>, kind: ModuleKind)
    -> ResolvedModuleView {
    ResolvedModuleView {
        absolute_path: match lookup(fs, path) {
            Some(entry) => entry.real_path,
            None => path,
        },
        kind,
    }
}

/// What a specifier written in `containing_file` resolves to.
pub open spec fn resolution(
    fs: Seq<EntryView>,
    config: ResolverConfigView,
    specifier: Seq<char>,
    containing_file: Seq<char>,
) -> Result<ResolvedModuleView, ResolutionErrorView> {
    if is_path_specifier(specifier) {
        match located(fs, config, candidate_of(specifier, containing_file)) {
            Some((path, kind)) => Ok(module_at(fs, path, kind)),
            None => Err(ResolutionErrorView::NotFound { specifier, containing_file }),
        }
    } else {
        match found_above(fs, config, normalize(dirname(containing_file)), specifier) {
            Some((path, kind)) => Ok(module_at(fs, path, kind)),
            None => Err(ResolutionErrorView::PackageNotFound { specifier }),
        }
    }
}

/// The view of a path found together with its rule.
pub open spec fn found_view(found: Option<(String, ModuleKind)>) -> Option<(Seq<char>, ModuleKind)> {
    match found {
        Some((path, kind)) => Some((path@, kind)),
        None => None,
    }
}

/// The view of the outcome of a resolution.
pub open spec fn resolution_view(outcome: Result<ResolvedModule, ResolutionError>) -> Result<
    ResolvedModuleView,
    ResolutionErrorView,
> {
    match outcome {
        Ok(module) => Ok(module@),
        Err(error) => Err(error@),
    }
}

fn probe_extensions(fs: &FileSystem, base: &str, extensions: &Vec<String>) -> (found: Option<
    String,
>)
    ensures
        text_view(found) == first_with_extension(fs@, base@, views(extensions@)),
{
    let mut index: usize = 0;
    assert(views(extensions@).skip(0) =~= views(extensions@));
    while index < extensions.len()
        invariant
            index <= extensions.len(),
            first_with_extension(fs@, base@, views(extensions@)) == first_with_extension(
                fs@,
                base@,
                views(extensions@).skip(index as int),
            ),
        decreases extensions.len() - index,
    {
        let ghost rest = views(extensions@).skip(index as int);
        assert(rest.first() == extensions@[index as int]@);
        assert(rest.drop_first() =~= views(extensions@).skip(index + 1));
        let path = String::from_str(base).concat(extensions[index].as_str());
        if fs.is_file(path.as_str()) {
            return Some(path);
        }
        index = index + 1;
    }
    None
}

fn locate_file(fs: &FileSystem, config: &ResolverConfig, candidate: &str) -> (found: Option<
    String,
>)
    ensures
        text_view(found) == as_file(fs@, config@, candidate@),
{
    if fs.is_file(candidate) {
        Some(String::from_str(candidate))
    } else {
        probe_extensions(fs, candidate, &config.extensions)
    }
}

/// Finds the file that stands for `directory`, given the entry point that
/// its manifest names: the entry point if it leads to a file, else the index
/// of the directory.
pub fn locate_in_directory(
    fs: &FileSystem,
    config: &ResolverConfig,
    directory: &str,
    main: Option<String>,
) -> (found: Option<(String, ModuleKind)>)
    ensures
        found_view(found) == in_directory(fs@, config@, directory@, text_view(main)),
{
    let through_main = match main {
        Some(entry) => {
            let target = normalize_path(join_paths(directory, entry.as_str()).as_str());
            locate_file(fs, config, target.as_str())
        },
        None => None,
    };
    match through_main {
        Some(path) => Some((path, ModuleKind::PackageMain)),
        None => {
            let index = join_paths(directory, "index");
            match probe_extensions(fs, index.as_str(), &config.extensions) {
                Some(path) => Some((path, ModuleKind::DirectoryIndex)),
                None => None,
            }
        },
    }
}

/// Reads the entry point that the manifest of `directory` names.
pub fn read_main(fs: &FileSystem, config: &ResolverConfig, directory: &str) -> (main: Option<
    String,
>)
    ensures
        text_view(main) == main_of(fs@, config@, directory@),
{
    let manifest = join_paths(directory, config.manifest_name.as_str());
    match fs.read_to_string(manifest.as_str()) {
        Some(text) => manifest_main(text.as_str()),
        None => None,
    }
}

/// Finds the file that the path `candidate` stands for, and by which rule.
pub fn locate(fs: &FileSystem, config: &ResolverConfig, candidate: &str) -> (found: Option<
    (String, ModuleKind),
>)
    ensures
        found_view(found) == located(fs@, config@, candidate@),
{
    match locate_file(fs, config, candidate) {
        Some(path) => Some((path, ModuleKind::File)),
        None => {
            if fs.is_directory(candidate) {
                let main = read_main(fs, config, candidate);
                locate_in_directory(fs, config, candidate, main)
            } else {
                None
            }
        },
    }
}

/// Looks for the package `specifier` in `start` and in the directories
/// above it, nearest first.
pub fn locate_package(fs: &FileSystem, config: &ResolverConfig, start: &str, specifier: &str)
    -> (found: Option<(String, ModuleKind)>)
    ensures
        found_view(found) == found_above(fs@, config@, start@, specifier@),
{
    let mut directory = String::from_str(start);
    loop
        invariant
            found_above(fs@, config@, start@, specifier@) == found_above(
                fs@,
                config@,
                directory@,
                specifier@,
            ),
        decreases directory@.len(),
    {
        let packages = join_paths(directory.as_str(), config.packages_directory.as_str());
        let candidate = normalize_path(join_paths(packages.as_str(), specifier).as_str());
        match locate(fs, config, candidate.as_str()) {
            Some(found) => {
                return Some(found);
            },
            None => {},
        }
        let parent = parent_directory(directory.as_str());
        if parent.as_str().unicode_len() < directory.as_str().unicode_len() {
            directory = parent;
        } else {
            return None;
        }
    }
}

/// Whether a specifier is a path rather than the name of a package.
pub fn names_path(specifier: &str) -> (yes: bool)
    ensures
        yes == is_path_specifier(specifier@),
{
    has_prefix(specifier, "./") || has_prefix(specifier, "../") || starts_at_root(specifier)
}

/// The module at `path`, found by the rule `kind`, under its real path.
pub fn module_from(fs: &FileSystem, path: String, kind: ModuleKind) -> (module: ResolvedModule)
    ensures
        module@ == module_at(fs@, path@, kind),
{
    match fs.canonicalize(path.as_str()) {
        Some(real_path) => ResolvedModule { absolute_path: real_path, kind },
        None => ResolvedModule { absolute_path: path, kind },
    }
}

/// Resolves a specifier written in the file `containing_file` to a module
/// on disk.
///
/// `containing_file` is the absolute path of that file. The error is
/// `NotFound` for a path specifier that leads to no file, and
/// `PackageNotFound` for a bare specifier that no directory above the file
/// holds. In a consistent file system the module found is known by an
/// absolute path that is a file and its own real path.
pub fn resolve(fs: &FileSystem, config: &ResolverConfig, specifier: &str, containing_file: &str)
    -> (outcome: Result<ResolvedModule, ResolutionError>)
    ensures
        resolution_view(outcome) == resolution(fs@, config@, specifier@, containing_file@),
        consistent(fs@) ==> (outcome matches Ok(module) ==> is_canonical_file(
            fs@,
            module@.absolute_path,
        )),
{
    proof {
        if consistent(fs@) && resolution(fs@, config@, specifier@, containing_file@) is Ok {
            lemma_resolution_is_canonical(fs@, config@, specifier@, containing_file@);
        }
    }
    let directory = parent_directory(containing_file);
    if names_path(specifier) {
        let candidate = if starts_at_root(specifier) {
            normalize_path(specifier)
        } else {
            normalize_path(join_paths(directory.as_str(), specifier).as_str())
        };
        match locate(fs, config, candidate.as_str()) {
            Some((path, kind)) => Ok(module_from(fs, path, kind)),
            None => Err(
                ResolutionError::NotFound {
                    specifier: String::from_str(specifier),
                    containing_file: String::from_str(containing_file),
                },
            ),
        }
    } else {
        let start = normalize_path(directory.as_str());
        match locate_package(fs, config, start.as_str(), specifier) {
            Some((path, kind)) => Ok(module_from(fs, path, kind)),
            None => Err(
                ResolutionError::PackageNotFound { specifier: String::from_str(specifier) },
            ),
        }
    }
}

/// The extension at `index` is the one taken when the file with it exists
/// and with none of the earlier ones.
pub proof fn lemma_first_with_extension(
    fs: Seq<EntryView>,
    base: Seq<char>,
    extensions: Seq<Seq<char>>,
    index: int,
)
    requires
        0 <= index < extensions.len(),
        is_file(fs, base + extensions[index]),
        forall|earlier: int|
            0 <= earlier < index ==> !is_file(fs, base + #[trigger] extensions[earlier]),
    ensures
        first_with_extension(fs, base, extensions) == Some(base + extensions[index]),
    decreases index,
{
    if index > 0 {
        let rest = extensions.drop_first();
        assert forall|earlier: int| 0 <= earlier < index - 1 implies !is_file(
            fs,
            base + #[trigger] rest[earlier],
        ) by {
            assert(rest[earlier] == extensions[earlier + 1]);
        }
        lemma_first_with_extension(fs, base, rest, index - 1);
        assert(!is_file(fs, base + extensions[0]));
    }
}

/// An extension behind a path specifier that ends in a name gives a path
/// specifier again, and its path is the path of the shorter one with the
/// extension behind it.
pub proof fn lemma_candidate_append(
    specifier: Seq<char>,
    containing_file: Seq<char>,
    extension: Seq<char>,
)
    requires
        is_path_specifier(specifier),
        ends_in_name(specifier),
        has_no_slash(extension),
    ensures
        is_path_specifier(specifier + extension),
        candidate_of(specifier + extension, containing_file) == candidate_of(
            specifier,
            containing_file,
        ) + extension,
{
    let longer = specifier + extension;
    assert(longer[0] == specifier[0]);
    if starts_with(specifier, "./"@) {
        assert(longer.take("./"@.len() as int) =~= specifier.take("./"@.len() as int));
    }
    if starts_with(specifier, "../"@) {
        assert(longer.take("../"@.len() as int) =~= specifier.take("../"@.len() as int));
    }
    if is_absolute(specifier) {
        lemma_normalize_append(specifier, extension);
    } else {
        let directory = dirname(containing_file);
        let joined = join(directory, specifier);
        assert(join(directory, longer) =~= joined + extension);
        assert(joined.last() == specifier.last());
        lemma_normalize_append(joined, extension);
    }
}

/// Where a path specifier names no file by itself, it resolves to the file
/// with the first extension that gives one; and the specifier with that
/// extension written out resolves to the same module.
pub proof fn lemma_inferred_extension(
    fs: Seq<EntryView>,
    config: ResolverConfigView,
    specifier: Seq<char>,
    containing_file: Seq<char>,
    index: int,
)
    requires
        is_path_specifier(specifier),
        ends_in_name(specifier),
        0 <= index < config.extensions.len(),
        has_no_slash(config.extensions[index]),
        !is_file(fs, candidate_of(specifier, containing_file)),
        is_file(fs, candidate_of(specifier, containing_file) + config.extensions[index]),
        forall|earlier: int|
            0 <= earlier < index ==> !is_file(
                fs,
                candidate_of(specifier, containing_file) + #[trigger] config.extensions[earlier],
            ),
    ensures
        resolution(fs, config, specifier, containing_file) == Ok::<
            ResolvedModuleView,
            ResolutionErrorView,
        >(
            module_at(
                fs,
                candidate_of(specifier, containing_file) + config.extensions[index],
                ModuleKind::File,
            ),
        ),
        resolution(fs, config, specifier + config.extensions[index], containing_file)
            == resolution(fs, config, specifier, containing_file),
{
    let candidate = candidate_of(specifier, containing_file);
    let extension = config.extensions[index];
    lemma_first_with_extension(fs, candidate, config.extensions, index);
    lemma_candidate_append(specifier, containing_file, extension);
}

/// A directory whose manifest names an entry point that leads to a file
/// resolves to that file.
pub proof fn lemma_directory_with_main(
    fs: Seq<EntryView>,
    config: ResolverConfigView,
    specifier: Seq<char>,
    containing_file: Seq<char>,
    main: Seq<char>,
)
    requires
        is_path_specifier(specifier),
        as_file(fs, config, candidate_of(specifier, containing_file)) is None,
        is_directory(fs, candidate_of(specifier, containing_file)),
        main_of(fs, config, candidate_of(specifier, containing_file)) == Some(main),
        is_file(fs, normalize(join(candidate_of(specifier, containing_file), main))),
    ensures
        resolution(fs, config, specifier, containing_file) == Ok::<
            ResolvedModuleView,
            ResolutionErrorView,
        >(
            module_at(
                fs,
                normalize(join(candidate_of(specifier, containing_file), main)),
                ModuleKind::PackageMain,
            ),
        ),
{
}

/// A directory without a manifest resolves to its index: the file
/// `index` with the first extension that gives one.
pub proof fn lemma_directory_with_index(
    fs: Seq<EntryView>,
    config: ResolverConfigView,
    specifier: Seq<char>,
    containing_file: Seq<char>,
    index: int,
)
    requires
        is_path_specifier(specifier),
        as_file(fs, config, candidate_of(specifier, containing_file)) is None,
        is_directory(fs, candidate_of(specifier, containing_file)),
        main_of(fs, config, candidate_of(specifier, containing_file)) is None,
        0 <= index < config.extensions.len(),
        is_file(
            fs,
            join(candidate_of(specifier, containing_file), index_name())
                + config.extensions[index],
        ),
        forall|earlier: int|
            0 <= earlier < index ==> !is_file(
                fs,
                join(candidate_of(specifier, containing_file), index_name())
                    + #[trigger] config.extensions[earlier],
            ),
    ensures
        resolution(fs, config, specifier, containing_file) == Ok::<
            ResolvedModuleView,
            ResolutionErrorView,
        >(
            module_at(
                fs,
                join(candidate_of(specifier, containing_file), index_name())
                    + config.extensions[index],
                ModuleKind::DirectoryIndex,
            ),
        ),
{
    lemma_first_with_extension(
        fs,
        join(candidate_of(specifier, containing_file), index_name()),
        config.extensions,
        index,
    );
}

/// A directory without a manifest and without an index is not found.
pub proof fn lemma_directory_without_entry(
    fs: Seq<EntryView>,
    config: ResolverConfigView,
    specifier: Seq<char>,
    containing_file: Seq<char>,
)
    requires
        is_path_specifier(specifier),
        as_file(fs, config, candidate_of(specifier, containing_file)) is None,
        is_directory(fs, candidate_of(specifier, containing_file)),
        main_of(fs, config, candidate_of(specifier, containing_file)) is None,
        first_with_extension(
            fs,
            join(candidate_of(specifier, containing_file), index_name()),
            config.extensions,
        ) is None,
    ensures
        resolution(fs, config, specifier, containing_file) == Err::<
            ResolvedModuleView,
            ResolutionErrorView,
        >(ResolutionErrorView::NotFound { specifier, containing_file }),
{
}

/// An exact file goes before anything else that a path could stand for.
pub proof fn lemma_exact_file_first(
    fs: Seq<EntryView>,
    config: ResolverConfigView,
    specifier: Seq<char>,
    containing_file: Seq<char>,
)
    requires
        is_path_specifier(specifier),
        is_file(fs, candidate_of(specifier, containing_file)),
    ensures
        resolution(fs, config, specifier, containing_file) == Ok::<
            ResolvedModuleView,
            ResolutionErrorView,
        >(module_at(fs, candidate_of(specifier, containing_file), ModuleKind::File)),
{
}

/// A path taken for one of its extensions is a file.
pub proof fn lemma_first_with_extension_is_file(
    fs: Seq<EntryView>,
    base: Seq<char>,
    extensions: Seq<Seq<char>>,
)
    requires
        first_with_extension(fs, base, extensions) is Some,
    ensures
        is_file(fs, first_with_extension(fs, base, extensions)->Some_0),
    decreases extensions.len(),
{
    if !is_file(fs, base + extensions.first()) {
        lemma_first_with_extension_is_file(fs, base, extensions.drop_first());
    }
}

/// Whatever a path stands for is a file.
pub proof fn lemma_located_is_file(
    fs: Seq<EntryView>,
    config: ResolverConfigView,
    candidate: Seq<char>,
)
    requires
        located(fs, config, candidate) is Some,
    ensures
        is_file(fs, located(fs, config, candidate)->Some_0.0),
{
    if !is_file(fs, candidate) {
        if first_with_extension(fs, candidate, config.extensions) is Some {
            lemma_first_with_extension_is_file(fs, candidate, config.extensions);
        } else {
            match main_of(fs, config, candidate) {
                Some(entry) => {
                    let target = normalize(join(candidate, entry));
                    if !is_file(fs, target) && first_with_extension(
                        fs,
                        target,
                        config.extensions,
                    ) is Some {
                        lemma_first_with_extension_is_file(fs, target, config.extensions);
                    }
                },
                None => {},
            }
            let index = join(candidate, index_name());
            if first_with_extension(fs, index, config.extensions) is Some {
                lemma_first_with_extension_is_file(fs, index, config.extensions);
            }
        }
    }
}

/// Whatever a package is found as is a file.
pub proof fn lemma_found_above_is_file(
    fs: Seq<EntryView>,
    config: ResolverConfigView,
    directory: Seq<char>,
    specifier: Seq<char>,
)
    requires
        found_above(fs, config, directory, specifier) is Some,
    ensures
        is_file(fs, found_above(fs, config, directory, specifier)->Some_0.0),
    decreases directory.len(),
{
    let candidate = package_candidate(config, directory, specifier);
    if located(fs, config, candidate) is Some {
        lemma_located_is_file(fs, config, candidate);
    } else {
        lemma_found_above_is_file(fs, config, dirname(directory), specifier);
    }
}

/// A specifier resolves only to the real path of an entry of the file
/// system.
pub proof fn lemma_resolution_is_real(
    fs: Seq<EntryView>,
    config: ResolverConfigView,
    specifier: Seq<char>,
    containing_file: Seq<char>,
)
    requires
        resolution(fs, config, specifier, containing_file) is Ok,
    ensures
        real_paths(fs).contains(
            resolution(fs, config, specifier, containing_file)->Ok_0.absolute_path,
        ),
{
    if is_path_specifier(specifier) {
        let candidate = candidate_of(specifier, containing_file);
        lemma_located_is_file(fs, config, candidate);
        lemma_lookup_is_entry(fs, located(fs, config, candidate)->Some_0.0);
    } else {
        let start = normalize(dirname(containing_file));
        lemma_found_above_is_file(fs, config, start, specifier);
        lemma_lookup_is_entry(fs, found_above(fs, config, start, specifier)->Some_0.0);
    }
}

/// In a consistent file system a specifier resolves only to the identity of
/// a module: an absolute path that is a file and its own real path.
pub proof fn lemma_resolution_is_canonical(
    fs: Seq<EntryView>,
    config: ResolverConfigView,
    specifier: Seq<char>,
    containing_file: Seq<char>,
)
    requires
        consistent(fs),
        resolution(fs, config, specifier, containing_file) is Ok,
    ensures
        is_canonical_file(
            fs,
            resolution(fs, config, specifier, containing_file)->Ok_0.absolute_path,
        ),
{
    let found = if is_path_specifier(specifier) {
        lemma_located_is_file(fs, config, candidate_of(specifier, containing_file));
        located(fs, config, candidate_of(specifier, containing_file))->Some_0.0
    } else {
        lemma_found_above_is_file(fs, config, normalize(dirname(containing_file)), specifier);
        found_above(fs, config, normalize(dirname(containing_file)), specifier)->Some_0.0
    };
    assert(is_file(fs, found));
    let entry = lookup(fs, found)->Some_0;
    assert(lookup(fs, found) is Some);
    assert(resolution(fs, config, specifier, containing_file)->Ok_0.absolute_path
        == entry.real_path);
}

} // verus!
