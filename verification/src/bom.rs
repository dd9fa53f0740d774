//! Helpers for gathering the files that a bill of materials names: content
//! hashes, destination paths, and the shared objects that a dynamic loader
//! reports.
//!
//! Nothing here touches a file or runs a program: the caller reads files and
//! runs the loader, and hands over what it got.

use crate::bom_outside::{
    captures_of, expand_env, file_name, hex_upper, hex_upper_encode, is_absolute, join, lines_of,
    parent, path_file_name, path_is_absolute, path_joined, path_parent, path_stripped,
    plain_variables,
    regex_captures, sha256, sha256_of, str_lines, str_trim, str_trim_end_matches,
    string_from_utf8_lossy, strip_prefix, texts, trimmed, trimmed_end, utf8_lossy,
};
use vstd::hash_map::StringHashMap;
use vstd::prelude::*;

verus! {

/// A line of a dynamic loader's report on a shared object, `name => path `,
/// and what follows on the line.
pub const DEPENDENCY_PATTERN: &'static str = "^(?P<name>\\S+) => (?P<path>\\S+) ";

/// A shared object: where it is found, and where it is to go.
pub type SharedObject = (Seq<char>, Seq<char>);

/// The hash of a file's content as it stands in a bill of materials: the
/// SHA-256 digest in upper-case hexadecimal digits.
pub open spec fn file_hash(content: Seq<u8>) -> Seq<char> {
    hex_upper(sha256_of(content))
}

/// Use sha256 to calculate hash for file content. The returned hash is a hex-encoded string.
pub fn calculate_file_hash(content: &[u8]) -> (hash: String)
    ensures
        hash@ == file_hash(content@),
{
    let digest = sha256(content);
    hex_upper_encode(digest.as_slice())
}

/// check if hash of the file is equal to the passed hash value.
pub fn check_file_hash(content: &[u8], hash: &str) -> (ok: bool)
    ensures
        ok == (file_hash(content@) == hash@),
{
    let file_hash = calculate_file_hash(content);
    file_hash == hash.to_owned()
}

/// The path to use for `path` once the environment was asked: the expanded
/// path, or `path` itself where the expansion failed.
pub fn resolve_envs_from(path: &str, expanded: Option<String>) -> (res: String)
    ensures
        res@ == match expanded {
            Some(expanded) => expanded@,
            None => path@,
        },
{
    match expanded {
        Some(expanded) => expanded,
        None => path.to_owned(),
    }
}

/// Whether `path` can be resolved: whether every `$` in it is followed by a
/// character of the ASCII set, or by none.
pub fn has_plain_variables(path: &str) -> (ok: bool)
    ensures
        ok == plain_variables(path@),
{
    let n = path.unicode_len();
    let mut i: usize = 0;
    while i < n
        invariant
            n == path@.len(),
            i <= n,
            forall|j: int|
                #![trigger path@[j]]
                0 <= j < i && j < n - 1 && path@[j] == '$' ==> (path@[j + 1] as u32) < 128,
        decreases n - i,
    {
        if i + 1 < n && path.get_char(i) == '$' && path.get_char(i + 1) as u32 >= 128 {
            return false;
        }
        i = i + 1;
    }
    true
}

/// Try to resolve a path may contain environmental variables to a path without environmental variables
/// A path without a `$` names no variable and resolves to itself; what
/// another path resolves to is for the environment to say, and is the path
/// itself where a variable cannot be looked up. A path in which a `$` is
/// followed by a character outside the ASCII set cannot be resolved:
/// `has_plain_variables` tells.
/// Known limitations: If the environmental variable points to an empty value, the conversion may fail.
pub fn resolve_envs(path: &str) -> (res: String)
    requires
        plain_variables(path@),
    ensures
        !path@.contains('$') ==> res@ == path@,
{
    resolve_envs_from(path, expand_env(path))
}

/// Where `dest` lies below `root_dir`: an absolute `dest` without its root,
/// put behind `root_dir`; none where an absolute `dest` does not begin with
/// `/`.
pub open spec fn in_root(root_dir: Seq<char>, dest: Seq<char>) -> Option<Seq<char>> {
    if path_is_absolute(dest) {
        match path_stripped(dest, "/"@) {
            Some(relative) => Some(path_joined(root_dir, relative)),
            None => None,
        }
    } else {
        Some(path_joined(root_dir, dest))
    }
}

/// convert a dest path(usually absolute) to a dest path in root directory
pub fn dest_in_root(root_dir: &str, dest: &str) -> (res: Option<String>)
    ensures
        match res {
            Some(path) => in_root(root_dir@, dest@) == Some(path@),
            None => in_root(root_dir@, dest@) is None,
        },
{
    if is_absolute(dest) {
        match strip_prefix(dest, "/") {
            Some(relative) => Some(join(root_dir, relative.as_str())),
            None => None,
        }
    } else {
        Some(join(root_dir, dest))
    }
}

/// The directory of `filename`, or `.` where it has none.
pub open spec fn directory_of(filename: Seq<char>) -> Seq<char> {
    match path_parent(filename) {
        Some(dir) => dir,
        None => "."@,
    }
}

/// convert `a path relative to file` to the real path in file system
pub fn resolve_relative_path(filename: &str, relative_path: &str) -> (res: String)
    ensures
        res@ == path_joined(directory_of(filename@), relative_path@),
{
    let file_dir_path = match parent(filename) {
        Some(dir) => dir,
        None => ".".to_owned(),
    };
    join(file_dir_path.as_str(), relative_path)
}

/// The absolute path that `raw_path` stands for in `file_path`: itself where
/// it is absolute, else what it resolves to beside the file, where that is
/// absolute.
pub open spec fn absolute_of(file_path: Seq<char>, raw_path: Seq<char>) -> Option<Seq<char>> {
    let resolved = path_joined(directory_of(file_path), raw_path);
    if path_is_absolute(raw_path) {
        Some(raw_path)
    } else if path_is_absolute(resolved) {
        Some(resolved)
    } else {
        None
    }
}

/// convert the raw path to an absolute path.
/// The raw_path may be an absolute path itself, or a relative path relative to some file
/// If the conversion succeeds, return Some(converted_absolute_path)
/// otherwise, return None
pub fn convert_to_absolute(file_path: &str, raw_path: &str) -> (res: Option<String>)
    ensures
        match res {
            Some(path) => absolute_of(file_path@, raw_path@) == Some(path@),
            None => absolute_of(file_path@, raw_path@) is None,
        },
{
    // if raw path is absolute, return
    if is_absolute(raw_path) {
        return Some(raw_path.to_owned());
    }
    // if the given relative path can be converted to an absolute path , return
    let converted_path = resolve_relative_path(file_path, raw_path);
    if is_absolute(converted_path.as_str()) {
        return Some(converted_path);
    }
    None
}

/// The path to hand to a dynamic loader for `file_path`: a path without a
/// directory is put below `.`.
pub fn loader_argument(file_path: &str) -> (res: String)
    ensures
        res@ == if path_parent(file_path@) is None {
            path_joined("."@, file_path@)
        } else {
            file_path@
        },
{
    match parent(file_path) {
        None => join(".", file_path),
        Some(_) => file_path.to_owned(),
    }
}

/// The shared objects of `v`, in their order.
pub open spec fn objects(v: Seq<(String, String)>) -> Seq<SharedObject> {
    v.map_values(|o: (String, String)| o@)
}

/// `found` with `o` behind it, unless it holds `o` already.
pub open spec fn with_object(found: Seq<SharedObject>, o: SharedObject) -> Seq<SharedObject> {
    if found.contains(o) {
        found
    } else {
        found.push(o)
    }
}

/// The shared objects that a line of a loader's report names: none unless
/// the line matches `DEPENDENCY_PATTERN` and its path can be made absolute;
/// else the object at that path, to go where it is, and, where the name is
/// an absolute path too, the same object, to go where the name says.
pub open spec fn line_objects(file_path: Seq<char>, line: Seq<char>) -> Seq<SharedObject> {
    match captures_of(DEPENDENCY_PATTERN@, trimmed(line)) {
        Some(groups) => if groups.len() > 2 && groups[1] is Some && groups[2] is Some {
            match absolute_of(file_path, groups[2]->0) {
                Some(path) => if path_is_absolute(groups[1]->0) {
                    seq![(path, path), (path, groups[1]->0)]
                } else {
                    seq![(path, path)]
                },
                None => Seq::empty(),
            }
        } else {
            Seq::empty()
        },
        None => Seq::empty(),
    }
}

/// `found` with each of `more` behind it, in their order, unless it is there
/// already.
pub open spec fn with_objects(found: Seq<SharedObject>, more: Seq<SharedObject>) -> Seq<
    SharedObject,
>
    decreases more.len(),
{
    if more.len() == 0 {
        found
    } else {
        with_objects(with_object(found, more[0]), more.drop_first())
    }
}

/// `found` with the shared objects that the lines name, line by line.
pub open spec fn with_lines(
    found: Seq<SharedObject>,
    file_path: Seq<char>,
    lines: Seq<Seq<char>>,
) -> Seq<SharedObject>
    decreases lines.len(),
{
    if lines.len() == 0 {
        found
    } else {
        with_lines(
            with_objects(found, line_objects(file_path, lines[0])),
            file_path,
            lines.drop_first(),
        )
    }
}

/// Nothing occurs twice in a list that grows by `with_object`.
pub proof fn lemma_with_object_no_duplicates(found: Seq<SharedObject>, o: SharedObject)
    requires
        found.no_duplicates(),
    ensures
        with_object(found, o).no_duplicates(),
        with_object(found, o).contains(o),
        forall|x: SharedObject| found.contains(x) ==> with_object(found, o).contains(x),
{
    if !found.contains(o) {
        let next = found.push(o);
        assert(next[found.len() as int] == o);
        assert forall|x: SharedObject| found.contains(x) implies next.contains(x) by {
            let i = choose|i: int| 0 <= i < found.len() && found[i] == x;
            assert(next[i] == x);
        }
    }
}

/// Puts the object behind those found, unless it is among them already.
fn add_object(found: &mut Vec<(String, String)>, src: String, dest: String)
    requires
        objects(old(found)@).no_duplicates(),
    ensures
        objects(final(found)@) == with_object(objects(old(found)@), (src@, dest@)),
        objects(final(found)@).no_duplicates(),
{
    let ghost before = objects(found@);
    let mut i: usize = 0;
    while i < found.len()
        invariant
            i <= found@.len(),
            objects(found@) == before,
            before.no_duplicates(),
            forall|j: int| 0 <= j < i ==> before[j] != (src@, dest@),
        decreases found@.len() - i,
    {
        assert(before[i as int] == found@[i as int]@);
        if found[i].0 == src && found[i].1 == dest {
            assert(before.contains((src@, dest@)));
            return ;
        }
        i = i + 1;
    }
    proof {
        lemma_with_object_no_duplicates(before, (src@, dest@));
    }
    found.push((src, dest));
    assert(objects(found@) =~= before.push((src@, dest@)));
}

/// Puts the shared objects that `line` names behind those found.
fn add_line_objects(found: &mut Vec<(String, String)>, file_path: &str, line: &str)
    requires
        objects(old(found)@).no_duplicates(),
    ensures
        objects(final(found)@) == with_objects(
            objects(old(found)@),
            line_objects(file_path@, line@),
        ),
        objects(final(found)@).no_duplicates(),
{
    let ghost before = objects(found@);
    let line = str_trim(line);
    let groups = match regex_captures(DEPENDENCY_PATTERN, line.as_str()) {
        Some(groups) => groups,
        None => { return ; },
    };
    if groups.len() <= 2 {
        return ;
    }
    let raw_name = match &groups[1] {
        Some(name) => name.clone(),
        None => { return ; },
    };
    let raw_path = match &groups[2] {
        Some(path) => path.clone(),
        None => { return ; },
    };
    if let Some(absolute_path) = convert_to_absolute(file_path, raw_path.as_str()) {
        let ghost path = absolute_path@;
        let ghost name = raw_name@;
        add_object(found, absolute_path.clone(), absolute_path.clone());
        let ghost one = with_object(before, (path, path));
        if is_absolute(raw_name.as_str()) {
            add_object(found, absolute_path, raw_name);
            proof {
                let more = seq![(path, path), (path, name)];
                let two = with_object(one, (path, name));
                assert(more.drop_first() =~= seq![(path, name)]);
                assert(more.drop_first().drop_first() =~= Seq::<SharedObject>::empty());
                assert(with_objects(two, more.drop_first().drop_first()) == two);
                assert(with_objects(one, more.drop_first()) == two);
                assert(with_objects(before, more) == two);
            }
        } else {
            proof {
                let more = seq![(path, path)];
                assert(more.drop_first() =~= Seq::<SharedObject>::empty());
                assert(with_objects(one, more.drop_first()) == one);
                assert(with_objects(before, more) == one);
            }
        }
    }
}

/// The lines of what a loader wrote, read as UTF-8.
pub open spec fn output_lines(stdout: Seq<u8>) -> Seq<Seq<char>> {
    lines_of(utf8_lossy(stdout))
}

/// Puts the shared objects that the lines of `stdout` name behind those
/// found.
fn add_output_objects(found: &mut Vec<(String, String)>, file_path: &str, stdout: &[u8])
    requires
        objects(old(found)@).no_duplicates(),
    ensures
        objects(final(found)@) == with_lines(
            objects(old(found)@),
            file_path@,
            output_lines(stdout@),
        ),
        objects(final(found)@).no_duplicates(),
{
    let ghost target = with_lines(objects(found@), file_path@, output_lines(stdout@));
    let text = string_from_utf8_lossy(stdout);
    let lines = str_lines(text.as_str());
    let mut i: usize = 0;
    assert(texts(lines@).subrange(0, lines@.len() as int) =~= texts(lines@));
    while i < lines.len()
        invariant
            i <= lines@.len(),
            texts(lines@) == output_lines(stdout@),
            objects(found@).no_duplicates(),
            with_lines(
                objects(found@),
                file_path@,
                texts(lines@).subrange(i as int, lines@.len() as int),
            ) == target,
        decreases lines@.len() - i,
    {
        let ghost rest = texts(lines@).subrange(i as int, lines@.len() as int);
        assert(rest[0] == lines@[i as int]@);
        assert(rest.drop_first() =~= texts(lines@).subrange(i + 1, lines@.len() as int));
        add_line_objects(found, file_path, lines[i].as_str());
        i = i + 1;
    }
}

/// resolve the results of dynamic loader to extract dependencies
pub fn extract_dependencies_from_output(file_path: &str, stdout: &[u8]) -> (shared_objects: Vec<
    (String, String),
>)
    ensures
        objects(shared_objects@) == with_lines(Seq::empty(), file_path@, output_lines(stdout@)),
        objects(shared_objects@).no_duplicates(),
{
    let mut shared_objects: Vec<(String, String)> = Vec::new();
    assert(objects(shared_objects@) =~= Seq::<SharedObject>::empty());
    add_output_objects(&mut shared_objects, file_path, stdout);
    shared_objects
}

/// The shared objects that a file depends on: none where it has no dynamic
/// loader; else the loader, found at its first path and to go to its second,
/// and what the loader's report names, if it gave one.
pub open spec fn dependent_objects(
    file_path: Seq<char>,
    dynamic_loader: Option<SharedObject>,
    output: Option<Seq<u8>>,
) -> Seq<SharedObject> {
    match dynamic_loader {
        None => Seq::empty(),
        Some(loader) => match output {
            None => seq![loader],
            Some(stdout) => with_lines(seq![loader], file_path, output_lines(stdout)),
        },
    }
}

/// This is the main function of finding dependent shared objects for an elf file.
/// Currently, we only support dependent shared objects with absolute path.
/// The caller finds the dynamic loader of the file and runs it on the file;
/// `dynamic_loader` is the loader, if the file has one, and `output` what
/// the loader wrote, if it ran.
/// The loader will automatically find all dependencies recursively, i.e., it will also find dependencies
/// for each shared object, so we only need to analyze the top elf file.
pub fn find_dependent_shared_objects(
    file_path: &str,
    dynamic_loader: Option<(String, String)>,
    output: Option<&[u8]>,
) -> (shared_objects: Vec<(String, String)>)
    ensures
        objects(shared_objects@) == dependent_objects(
            file_path@,
            match dynamic_loader {
                Some(loader) => Some(loader@),
                None => None,
            },
            match output {
                Some(stdout) => Some(stdout@),
                None => None,
            },
        ),
        objects(shared_objects@).no_duplicates(),
{
    let mut shared_objects: Vec<(String, String)> = Vec::new();
    assert(objects(shared_objects@) =~= Seq::<SharedObject>::empty());
    // first, we find the dynamic loader for the elf file, if we can't find the loader, return empty shared objects
    let loader = match dynamic_loader {
        Some(loader) => loader,
        None => { return shared_objects; },
    };
    let ghost first = loader@;
    shared_objects.push(loader);
    assert(objects(shared_objects@) =~= seq![first]);
    if let Some(stdout) = output {
        add_output_objects(&mut shared_objects, file_path, stdout);
    }
    shared_objects
}

/// The loaders to use in place of those that files ask for, by file name.
pub struct Loaders {
    table: StringHashMap<String>,
}

impl View for Loaders {
    type V = Map<Seq<char>, Seq<char>>;

    closed spec fn view(&self) -> Map<Seq<char>, Seq<char>> {
        self.table@.map_values(|path: String| path@)
    }
}

impl Loaders {
    /// No loaders.
    pub fn new() -> (loaders: Self)
        ensures
            loaders@ == Map::<Seq<char>, Seq<char>>::empty(),
    {
        let table: StringHashMap<String> = StringHashMap::new();
        assert(table@.map_values(|path: String| path@) =~= Map::<Seq<char>, Seq<char>>::empty());
        Self { table }
    }

    /// Sets the loader at `path` in the place of the loaders with file name
    /// `name`.
    pub fn insert(&mut self, name: String, path: String)
        ensures
            final(self)@ == old(self)@.insert(name@, path@),
    {
        let ghost before = self.table@;
        self.table.insert(name, path);
        assert(self.table@.map_values(|path: String| path@) =~= before.map_values(
            |path: String| path@,
        ).insert(name@, path@));
    }

    /// The loader set for the file name `name`, if there is one.
    pub fn get(&self, name: &str) -> (path: Option<String>)
        ensures
            match path {
                Some(path) => self@.contains_key(name@) && self@[name@] == path@,
                None => !self@.contains_key(name@),
            },
    {
        match self.table.get(name) {
            Some(path) => Some(path.clone()),
            None => None,
        }
    }
}

/// The loaders that the lines of a configuration name, each a path whose
/// file name is the loader's name, a later line before an earlier one. Empty
/// lines count for nothing. None where a line names no file.
pub open spec fn configured(table: Map<Seq<char>, Seq<char>>, lines: Seq<Seq<char>>) -> Option<
    Map<Seq<char>, Seq<char>>,
>
    decreases lines.len(),
{
    if lines.len() == 0 {
        Some(table)
    } else {
        let full_path = trimmed(lines[0]);
        if full_path.len() == 0 {
            configured(table, lines.drop_first())
        } else {
            match path_file_name(full_path) {
                Some(name) => configured(table.insert(name, full_path), lines.drop_first()),
                None => None,
            }
        }
    }
}

/// Reads the loaders to use from the content of the configuration that
/// lists them, one path to a line.
pub fn parse_loader_config(content: &str) -> (res: Option<Loaders>)
    ensures
        match res {
            Some(loaders) => configured(Map::empty(), lines_of(content@)) == Some(loaders@),
            None => configured(Map::empty(), lines_of(content@)) is None,
        },
{
    let ghost target = configured(Map::empty(), lines_of(content@));
    let mut m = Loaders::new();
    let lines = str_lines(content);
    let mut i: usize = 0;
    assert(texts(lines@).subrange(0, lines@.len() as int) =~= texts(lines@));
    while i < lines.len()
        invariant
            i <= lines@.len(),
            target == configured(Map::empty(), lines_of(content@)),
            configured(m@, texts(lines@).subrange(i as int, lines@.len() as int)) == target,
        decreases lines@.len() - i,
    {
        let ghost rest = texts(lines@).subrange(i as int, lines@.len() as int);
        assert(rest[0] == lines@[i as int]@);
        assert(rest.drop_first() =~= texts(lines@).subrange(i + 1, lines@.len() as int));
        let full_path = str_trim(lines[i].as_str());
        if !full_path.as_str().is_empty() {
            match file_name(full_path.as_str()) {
                Some(loader_file_name) => {
                    m.insert(loader_file_name, full_path);
                },
                None => {
                    assert(configured(m@, rest) is None);
                    return None;
                },
            }
        }
        i = i + 1;
    }
    Some(m)
}

/// The loader that runs a file whose interpreter section holds `interp`:
/// the path in the section, without the NUL at its end, is where the loader
/// is to go; it is found at the path that `loaders` sets for its file name,
/// or else where it is to go. None where the section names no file.
pub open spec fn dynamic_loader_of(interp: Seq<u8>, loaders: Map<Seq<char>, Seq<char>>) -> Option<
    SharedObject,
> {
    let inlined = trimmed_end(utf8_lossy(interp), "\u{0}"@);
    match path_file_name(inlined) {
        Some(name) => Some(
            (
                if loaders.contains_key(name) {
                    loaders[name]
                } else {
                    inlined
                },
                inlined,
            ),
        ),
        None => None,
    }
}

/// This function will try to find a dynamic loader for a elf file automatically
/// If we find the loader, we will return Some((loader_src, loader_dest)).
/// This is because the loader_src and loader_dest may not be the same directory.
/// `interp_data` is what the file's interpreter section holds.
pub fn auto_dynamic_loader(interp_data: &[u8], loaders: &Loaders) -> (res: Option<(String, String)>)
    ensures
        match res {
            Some(loader) => dynamic_loader_of(interp_data@, loaders@) == Some(loader@),
            None => dynamic_loader_of(interp_data@, loaders@) is None,
        },
{
    let interp_data = string_from_utf8_lossy(interp_data);
    // this interp_data always with a \u{0} at end
    proof {
        reveal_strlit("\u{0}");
    }
    let inlined_elf_loader = str_trim_end_matches(interp_data.as_str(), "\u{0}");
    let loader_file_name = match file_name(inlined_elf_loader.as_str()) {
        Some(name) => name,
        None => { return None; },
    };
    // If the loader file name is glibc loader or musl loader, we will use occlum-modified loader
    let occlum_elf_loader = match loaders.get(loader_file_name.as_str()) {
        Some(path) => path,
        None => inlined_elf_loader.clone(),
    };
    Some((occlum_elf_loader, inlined_elf_loader))
}

/// The places to look for a file that a bill of materials includes, in the
/// order in which to look: beside the bill of materials, then in each of the
/// directories given, taken from `current_dir`.
pub open spec fn included_candidates(
    included_file: Seq<char>,
    bom_file: Seq<char>,
    included_dirs: Seq<Seq<char>>,
    current_dir: Seq<char>,
) -> Seq<Seq<char>> {
    Seq::new(
        included_dirs.len() + 1,
        |i: int|
            if i == 0 {
                path_joined(directory_of(bom_file), included_file)
            } else {
                path_joined(path_joined(current_dir, included_dirs[i - 1]), included_file)
            },
    )
}

/// Lists where to look for an included bom file: the first of these that is
/// a file is the one to take.
/// if included dir is relative path, if will be viewed as path relative to the `current` path (where we execute command)
pub fn included_bom_candidates(
    included_file: &str,
    bom_file: &str,
    included_dirs: &Vec<String>,
    current_dir: &str,
) -> (candidates: Vec<String>)
    ensures
        texts(candidates@) == included_candidates(
            included_file@,
            bom_file@,
            texts(included_dirs@),
            current_dir@,
        ),
{
    let mut candidates: Vec<String> = Vec::new();
    // first, we find the included bom file in the current dir of the bom file
    candidates.push(resolve_relative_path(bom_file, included_file));
    // Then, we find the bom file in each included dir.
    let mut i: usize = 0;
    while i < included_dirs.len()
        invariant
            i <= included_dirs@.len(),
            candidates@.len() == i + 1,
            forall|j: int|
                0 <= j <= i ==> (#[trigger] candidates@[j])@ == included_candidates(
                    included_file@,
                    bom_file@,
                    texts(included_dirs@),
                    current_dir@,
                )[j],
        decreases included_dirs@.len() - i,
    {
        let included_dir_path = join(current_dir, included_dirs[i].as_str());
        candidates.push(join(included_dir_path.as_str(), included_file));
        i = i + 1;
    }
    assert(texts(candidates@) =~= included_candidates(
        included_file@,
        bom_file@,
        texts(included_dirs@),
        current_dir@,
    ));
    candidates
}

} // verus!
