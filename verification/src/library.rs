//! VPy libraries: manifests, the modules a library offers, the registry of
//! loaded libraries, and the files a new library starts with. Reading and
//! writing the files themselves is left to the caller.

use vstd::prelude::*;
use crate::keyed::{keys_unique, kmap, kv_get, kv_insert, lemma_kmap_dom, lemma_kmap_value};
use crate::text::{ends_with, push_str, starts_with, str_eq, string_from};

verus! {

/// Library manifest file name
pub const LIBRARY_MANIFEST: &'static str = "library.vpylib";

/// Library metadata from the manifest file
#[derive(Debug, Clone)]
pub struct LibraryManifest {
    pub library: LibraryInfo,
    pub exports: ExportsConfig,
    /// Dependencies by name, each once.
    pub dependencies: Vec<(String, DependencySpec)>,
}

/// Core library information
#[derive(Debug, Clone)]
pub struct LibraryInfo {
    pub name: String,
    pub version: String,
    pub author: String,
    pub description: String,
    pub license: String,
    pub repository: String,
    pub keywords: Vec<String>,
}

/// Exports configuration
#[derive(Debug, Clone)]
pub struct ExportsConfig {
    pub modules: Vec<String>,
    pub re_exports: Vec<String>,
}

/// Dependency specification
#[derive(Debug, Clone)]
pub enum DependencySpec {
    Version(String),
    Detailed {
        version: Option<String>,
        path: Option<String>,
        git: Option<String>,
        branch: Option<String>,
    },
}

/// A loaded library
#[derive(Debug)]
pub struct Library {
    /// Path to the library root
    pub root: String,
    /// Parsed manifest
    pub manifest: LibraryManifest,
    /// Cached list of available modules
    pub modules: Vec<String>,
}

// ---------------------------------------------------------------------------
// Paths
// ---------------------------------------------------------------------------

/// `base` joined with `part` as `Path::join` does on Unix: an absolute
/// part replaces the base, and a separator goes between them unless the
/// base is empty or already ends with one.
pub open spec fn path_join(base: Seq<char>, part: Seq<char>) -> Seq<char> {
    if starts_with(part, "/"@) || base.len() == 0 {
        part
    } else if ends_with(base, "/"@) {
        base + part
    } else {
        base + "/"@ + part
    }
}

/// Join a path with a further component.
pub fn path_join_exec(base: &str, part: &str) -> (r: String)
    ensures
        r@ == path_join(base@, part@),
{
    let pv = crate::text::chars_of(part);
    let bv = crate::text::chars_of(base);
    if crate::text::starts_with_str(&pv, "/") || bv.len() == 0 {
        return string_from(part);
    }
    let mut r = string_from(base);
    if !crate::text::ends_with_str(&bv, "/") {
        push_str(&mut r, "/");
    }
    push_str(&mut r, part);
    r
}

/// The stem and extension of a file name, as `Path::file_stem` and
/// `Path::extension` give them: split at the last dot, unless the name
/// has none or only a leading one.
pub open spec fn split_extension(name: Seq<char>) -> (Seq<char>, Option<Seq<char>>) {
    if name == ".."@ {
        (name, None)
    } else if exists|i: int| 0 < i < name.len() && name[i] == '.' {
        let i = choose|i: int|
            0 < i < name.len() && name[i] == '.' && forall|j: int| i < j < name.len() ==> name[j] != '.';
        (name.take(i), Some(name.skip(i + 1)))
    } else {
        (name, None)
    }
}

/// The module a file of a library's `src` directory provides: a file with
/// the extension `vpy`, named by its stem, except `__init__`.
pub open spec fn module_of_file(name: Seq<char>) -> Option<Seq<char>> {
    let (stem, ext) = split_extension(name);
    if ext == Some("vpy"@) && stem != "__init__"@ {
        Some(stem)
    } else {
        None
    }
}

/// The modules of the given files, in order.
pub open spec fn modules_of_files(names: Seq<Seq<char>>) -> Seq<Seq<char>>
    decreases names.len(),
{
    if names.len() == 0 {
        Seq::empty()
    } else {
        modules_of_files(names.drop_last()) + match module_of_file(names.last()) {
            Some(m) => seq![m],
            None => Seq::empty(),
        }
    }
}

fn module_of_file_exec(name: &String) -> (r: Option<String>)
    ensures
        match r {
            Some(m) => module_of_file(name@) == Some(m@),
            None => module_of_file(name@) is None,
        },
{
    let v = crate::text::chars_of(name.as_str());
    if crate::text::vec_is(&v, "..") {
        return None;
    }
    let mut k: usize = v.len();
    while k > 1 && v[k - 1] != '.'
        invariant
            k <= v.len(),
            forall|j: int| k <= j < v.len() ==> v@[j] != '.',
        decreases k,
    {
        k -= 1;
    }
    proof {
        if exists|i: int| 0 < i < v@.len() && v@[i] == '.' {
            let w = choose|i: int| 0 < i < v@.len() && v@[i] == '.';
            assert(k > 1);
        }
    }
    if k > 1 {
        let i = k - 1;
        proof {
            let c = choose|c: int|
                0 < c < v@.len() && v@[c] == '.' && forall|j: int| c < j < v@.len() ==> v@[j] != '.';
            assert(0 < i < v@.len() && v@[i as int] == '.' && forall|j: int|
                i < j < v@.len() ==> v@[j] != '.');
            if c < i {
                assert(v@[i as int] != '.');
            } else if c > i {
                assert(v@[c] != '.');
            }
        }
        let stem = crate::text::slice_of(&v, 0, i);
        let ext = crate::text::slice_of(&v, i + 1, v.len());
        assert(stem@ =~= v@.take(i as int));
        assert(ext@ =~= v@.skip(i + 1));
        if crate::text::vec_is(&ext, "vpy") && !crate::text::vec_is(&stem, "__init__") {
            return Some(crate::text::string_of(&stem));
        }
        None
    } else {
        None
    }
}

impl Library {
    /// The modules of a library's `src` directory, given the names of its
    /// files in the order they were listed.
    pub fn discover_modules(file_names: &Vec<String>) -> (r: Vec<String>)
        ensures
            crate::ast::sviews(r@) == modules_of_files(crate::ast::sviews(file_names@)),
    {
        let ghost names = crate::ast::sviews(file_names@);
        let mut modules: Vec<String> = Vec::new();
        let mut i: usize = 0;
        assert(names.take(0) =~= Seq::<Seq<char>>::empty());
        while i < file_names.len()
            invariant
                i <= file_names.len(),
                names == crate::ast::sviews(file_names@),
                crate::ast::sviews(modules@) == modules_of_files(names.take(i as int)),
            decreases file_names.len() - i,
        {
            assert(names.take(i + 1).drop_last() =~= names.take(i as int));
            let ghost before = crate::ast::sviews(modules@);
            match module_of_file_exec(&file_names[i]) {
                Some(m) => {
                    modules.push(m);
                    assert(crate::ast::sviews(modules@) =~= before + seq![
                        modules@[modules.len() - 1]@,
                    ]);
                },
                None => {
                    assert(crate::ast::sviews(modules@) =~= before + Seq::<Seq<char>>::empty());
                },
            }
            i += 1;
        }
        assert(names.take(file_names.len() as int) =~= names);
        modules
    }

    /// The path of a module's source file, `src/<module>.vpy` under the
    /// library root (whether the file exists is for the caller to see).
    pub fn module_source_path(&self, module_name: &str) -> (r: String)
        ensures
            r@ == path_join(path_join(self.root@, "src"@), module_name@ + ".vpy"@),
    {
        let src = path_join_exec(self.root.as_str(), "src");
        let mut file = string_from(module_name);
        push_str(&mut file, ".vpy");
        path_join_exec(src.as_str(), file.as_str())
    }

    /// Check if a module is exported (public): every module is when the
    /// manifest lists none.
    pub fn is_module_exported(&self, module_name: &str) -> (r: bool)
        ensures
            r == (self.manifest.exports.modules.len() == 0 || exists|i: int|
                0 <= i < self.manifest.exports.modules.len()
                    && #[trigger] self.manifest.exports.modules@[i]@ == module_name@),
    {
        let mods = &self.manifest.exports.modules;
        if mods.len() == 0 {
            return true;
        }
        let mut i: usize = 0;
        while i < mods.len()
            invariant
                i <= mods.len(),
                mods == &self.manifest.exports.modules,
                forall|j: int| 0 <= j < i ==> #[trigger] mods@[j]@ != module_name@,
            decreases mods.len() - i,
        {
            if str_eq(&mods[i], module_name) {
                assert(self.manifest.exports.modules@[i as int]@ == module_name@);
                return true;
            }
            i += 1;
        }
        false
    }

    /// Get the library name
    pub fn name(&self) -> (r: &str)
        ensures
            r@ == self.manifest.library.name@,
    {
        self.manifest.library.name.as_str()
    }

    /// Get the library version
    pub fn version(&self) -> (r: &str)
        ensures
            r@ == self.manifest.library.version@,
    {
        self.manifest.library.version.as_str()
    }
}

// ---------------------------------------------------------------------------
// The registry
// ---------------------------------------------------------------------------

/// Library registry for managing installed libraries
#[derive(Debug)]
pub struct LibraryRegistry {
    libraries: Vec<(String, Library)>,
    search_paths: Vec<String>,
}

impl LibraryRegistry {
    /// The libraries by name.
    pub closed spec fn libraries(&self) -> Map<Seq<char>, Library> {
        kmap(self.libraries@)
    }

    /// The search paths, in the order they were added.
    pub closed spec fn search_paths(&self) -> Seq<Seq<char>> {
        crate::ast::sviews(self.search_paths@)
    }

    pub closed spec fn wf(&self) -> bool {
        keys_unique(self.libraries@)
    }

    /// The name of the `i`-th library loaded.
    pub closed spec fn name_at(&self, i: int) -> Seq<char> {
        self.libraries@[i].0@
    }

    /// Create a new empty registry
    pub fn new() -> (r: Self)
        ensures
            r.wf(),
            r.libraries() == Map::<Seq<char>, Library>::empty(),
            r.search_paths() == Seq::<Seq<char>>::empty(),
    {
        let r = LibraryRegistry { libraries: Vec::new(), search_paths: Vec::new() };
        assert(r.search_paths() =~= Seq::<Seq<char>>::empty());
        r
    }

    /// Add a search path for libraries, unless it is already there.
    pub fn add_search_path(&mut self, path: String)
        requires
            old(self).wf(),
        ensures
            final(self).wf(),
            final(self).libraries() == old(self).libraries(),
            final(self).search_paths() == if old(self).search_paths().contains(path@) {
                old(self).search_paths()
            } else {
                old(self).search_paths().push(path@)
            },
    {
        let mut i: usize = 0;
        while i < self.search_paths.len()
            invariant
                i <= self.search_paths.len(),
                *self == *old(self),
                self.wf(),
                forall|j: int| 0 <= j < i ==> #[trigger] self.search_paths@[j]@ != path@,
            decreases self.search_paths.len() - i,
        {
            if str_eq(&self.search_paths[i], path.as_str()) {
                assert(self.search_paths()[i as int] == path@);
                return ;
            }
            i += 1;
        }
        assert(!self.search_paths().contains(path@)) by {
            if self.search_paths().contains(path@) {
                let j = choose|j: int|
                    0 <= j < self.search_paths().len() && self.search_paths()[j] == path@;
                assert(self.search_paths@[j]@ == path@);
            }
        }
        let ghost before = self.search_paths();
        self.search_paths.push(path);
        assert(self.search_paths() =~= before.push(path@));
    }

    /// Register a loaded library under its name, replacing one of the same
    /// name.
    pub fn load_library(&mut self, lib: Library)
        requires
            old(self).wf(),
        ensures
            final(self).wf(),
            final(self).libraries() == old(self).libraries().insert(lib.manifest.library.name@, lib),
            final(self).search_paths() == old(self).search_paths(),
    {
        let name = string_from(lib.name());
        kv_insert(&mut self.libraries, name, lib);
    }

    /// Find a loaded library by name
    pub fn find_library(&self, name: &str) -> (r: Option<&Library>)
        requires
            self.wf(),
        ensures
            match r {
                Some(l) => self.libraries().contains_key(name@) && self.libraries()[name@] == *l,
                None => !self.libraries().contains_key(name@),
            },
    {
        kv_get(&self.libraries, name)
    }

    /// The places to look for a library that is not loaded yet: its name
    /// under each search path, in order (a place holds the library when it
    /// has a manifest).
    pub fn library_candidates(&self, name: &str) -> (r: Vec<String>)
        ensures
            r@.len() == self.search_paths().len(),
            forall|i: int|
                0 <= i < r@.len() ==> #[trigger] r@[i]@ == path_join(self.search_paths()[i], name@),
    {
        let mut r: Vec<String> = Vec::new();
        let mut i: usize = 0;
        while i < self.search_paths.len()
            invariant
                i <= self.search_paths.len(),
                r.len() == i,
                forall|j: int|
                    0 <= j < i ==> #[trigger] r@[j]@ == path_join(self.search_paths()[j], name@),
            decreases self.search_paths.len() - i,
        {
            r.push(path_join_exec(self.search_paths[i].as_str(), name));
            i += 1;
        }
        r
    }

    /// A loaded library by name, or the message that it was not found (the
    /// caller loads it from `library_candidates` first).
    pub fn resolve_library(&self, name: &str) -> (r: Result<&Library, String>)
        requires
            self.wf(),
        ensures
            match r {
                Ok(l) => self.libraries().contains_key(name@) && self.libraries()[name@] == *l,
                Err(m) => !self.libraries().contains_key(name@) && m@ == "Library '"@ + name@
                    + "' not found"@,
            },
    {
        match kv_get(&self.libraries, name) {
            Some(l) => Ok(l),
            None => {
                let mut m = String::new();
                push_str(&mut m, "Library '");
                push_str(&mut m, name);
                push_str(&mut m, "' not found");
                Err(m)
            },
        }
    }

    /// List all loaded libraries: each listed library is loaded, and each
    /// loaded library is listed.
    pub fn list_libraries(&self) -> (r: Vec<&Library>)
        requires
            self.wf(),
        ensures
            forall|i: int|
                0 <= i < r@.len() ==> self.libraries().contains_key(#[trigger] self.name_at(i))
                    && self.libraries()[self.name_at(i)] == *r@[i],
            forall|k: Seq<char>|
                #[trigger] self.libraries().contains_key(k) ==> exists|i: int|
                    0 <= i < r@.len() && *r@[i] == self.libraries()[k],
    {
        let mut r: Vec<&Library> = Vec::new();
        let mut i: usize = 0;
        while i < self.libraries.len()
            invariant
                i <= self.libraries.len(),
                r.len() == i,
                forall|j: int| 0 <= j < i ==> *(#[trigger] r@[j]) == self.libraries@[j].1,
            decreases self.libraries.len() - i,
        {
            r.push(&self.libraries[i].1);
            i += 1;
        }
        proof {
            assert forall|i: int| 0 <= i < r@.len() implies self.libraries().contains_key(
                #[trigger] self.name_at(i),
            ) && self.libraries()[self.name_at(i)] == *r@[i] by {
                lemma_kmap_value(self.libraries@, i);
            }
            assert forall|k: Seq<char>| #[trigger] self.libraries().contains_key(k) implies exists|
                i: int,
            | 0 <= i < r@.len() && *r@[i] == self.libraries()[k] by {
                lemma_kmap_dom(self.libraries@, k);
                let j = choose|j: int|
                    0 <= j < self.libraries@.len() && self.libraries@[j].0@ == k;
                lemma_kmap_value(self.libraries@, j);
                assert(*r@[j] == self.libraries()[k]);
            }
        }
        r
    }

    /// The source path of a module of a loaded library (whether the file
    /// exists is for the caller to see).
    pub fn resolve_module(&self, library_name: &str, module_name: &str) -> (r: Option<String>)
        requires
            self.wf(),
        ensures
            match r {
                Some(p) => self.libraries().contains_key(library_name@) && p@ == path_join(
                    path_join(self.libraries()[library_name@].root@, "src"@),
                    module_name@ + ".vpy"@,
                ),
                None => !self.libraries().contains_key(library_name@),
            },
    {
        match kv_get(&self.libraries, library_name) {
            Some(lib) => Some(lib.module_source_path(module_name)),
            None => None,
        }
    }
}

// ---------------------------------------------------------------------------
// A new library
// ---------------------------------------------------------------------------

/// The manifest of a new library: version `0.1.0`, a description naming
/// it, the MIT license, the keywords `vectrex` and `vpy`, no exports and no
/// dependencies.
pub fn new_library_manifest(name: &str) -> (m: LibraryManifest)
    ensures
        m.library.name@ == name@,
        m.library.version@ == "0.1.0"@,
        m.library.author@.len() == 0,
        m.library.description@ == "A VPy library: "@ + name@,
        m.library.license@ == "MIT"@,
        m.library.repository@.len() == 0,
        m.library.keywords.len() == 2,
        m.library.keywords@[0]@ == "vectrex"@,
        m.library.keywords@[1]@ == "vpy"@,
        m.exports.modules.len() == 0,
        m.exports.re_exports.len() == 0,
        m.dependencies.len() == 0,
{
    let mut description = string_from("A VPy library: ");
    push_str(&mut description, name);
    let mut keywords: Vec<String> = Vec::new();
    keywords.push(string_from("vectrex"));
    keywords.push(string_from("vpy"));
    LibraryManifest {
        library: LibraryInfo {
            name: string_from(name),
            version: string_from("0.1.0"),
            author: String::new(),
            description,
            license: string_from("MIT"),
            repository: String::new(),
            keywords,
        },
        exports: ExportsConfig { modules: Vec::new(), re_exports: Vec::new() },
        dependencies: Vec::new(),
    }
}

/// The source of the first module of a new library.
pub open spec fn initial_module_text(name: Seq<char>) -> Seq<char> {
    "# "@ + name + " - Main module\n#\n# This is the main module of your library.\n# Export functions and constants for users.\n\nexport example_function\n\ndef example_function():\n    \"\"\"An example function from "@
        + name + ".\"\"\"\n    return 42\n"@
}

/// The source of the first module of a new library.
pub fn initial_module_source(name: &str) -> (r: String)
    ensures
        r@ == initial_module_text(name@),
{
    let mut r = string_from("# ");
    push_str(&mut r, name);
    push_str(
        &mut r,
        " - Main module\n#\n# This is the main module of your library.\n# Export functions and constants for users.\n\nexport example_function\n\ndef example_function():\n    \"\"\"An example function from ",
    );
    push_str(&mut r, name);
    push_str(&mut r, ".\"\"\"\n    return 42\n");
    assert(r@ =~= initial_module_text(name@));
    r
}

/// The README of a new library.
pub open spec fn readme_text(name: Seq<char>, description: Seq<char>, license: Seq<char>) -> Seq<
    char,
> {
    "# "@ + name + "\n\n"@ + description
        + "\n\n## Installation\n\nAdd to your project's `project.vpyproj`:\n\n```toml\n[dependencies]\n"@
        + name + " = { path = \"../path/to/"@ + name + "\" }\n```\n\n## Usage\n\n```python\nfrom "@
        + name
        + " import example_function\n\ndef main():\n    let x = example_function()\n```\n\n## License\n\n"@
        + license + "\n"@
}

/// The README of a new library.
pub fn library_readme(name: &str, description: &str, license: &str) -> (r: String)
    ensures
        r@ == readme_text(name@, description@, license@),
{
    let mut r = string_from("# ");
    push_str(&mut r, name);
    push_str(&mut r, "\n\n");
    push_str(&mut r, description);
    push_str(
        &mut r,
        "\n\n## Installation\n\nAdd to your project's `project.vpyproj`:\n\n```toml\n[dependencies]\n",
    );
    push_str(&mut r, name);
    push_str(&mut r, " = { path = \"../path/to/");
    push_str(&mut r, name);
    push_str(&mut r, "\" }\n```\n\n## Usage\n\n```python\nfrom ");
    push_str(&mut r, name);
    push_str(
        &mut r,
        " import example_function\n\ndef main():\n    let x = example_function()\n```\n\n## License\n\n",
    );
    push_str(&mut r, license);
    push_str(&mut r, "\n");
    assert(r@ =~= readme_text(name@, description@, license@));
    r
}

} // verus!
