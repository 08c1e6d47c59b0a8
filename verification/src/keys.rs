//! What a task's cache key is made of.
use vstd::prelude::*;

use crate::cascade::{byte_range, derived_globs, file_fits, files_bytes, lemma_files_bytes_injective, lemma_le_bytes, push_file, sig_to_hex, union, union_of, SourceFile, SourceFileModel, UnitSig};
use crate::config::{AdapterFacts, AdapterFactsModel, ToolVersionModel};
use crate::deep::deep;
use crate::digest::{blake3_of, digest, hex_of, le_bytes, push_u64, to_hex, utf8};
use crate::globs::{build_matcher, glob_matches, globs_compile, globs_fail, matching, select, GlobError};
use crate::path::path_less;
use crate::sort::{path_before, sort_by};
use crate::strmap::StrMap;
use crate::tasks::{ResolvedTask, ResolvedTaskModel};
use crate::text::{cat, cat3, copy, copy_all, join, joined, lemma_find_is, split, split_on, texts};

verus! {

broadcast use {crate::deep::group_deep, crate::deep::lemma_take_next, crate::deep::lemma_take_all};

/// The first two numbers of a version.
pub open spec fn major_minor(v: Seq<char>) -> Seq<char> {
    let parts = split_on(v, '.');
    joined(
        if parts.len() <= 2 {
            parts
        } else {
            parts.take(2)
        },
        "."@,
    )
}

/// The first two numbers of a version.
pub fn monad_version_major_minor(version: &str) -> (r: String)
    ensures
        r@ == major_minor(version@),
{
    let parts = split(version, '.');
    let mut first: Vec<String> = Vec::new();
    let mut i: usize = 0;
    while i < parts.len() && i < 2
        invariant
            i <= parts@.len(),
            i <= 2,
            texts(first@) == texts(parts@).take(i as int),
        decreases parts.len() - i,
    {
        first.push(copy(parts[i].as_str()));
        i += 1;
    }
    join(&first, ".")
}

/// The host for which keys are made: `<arch>-<os>`.
pub fn host_triple(arch: &str, os: &str) -> (r: String)
    ensures
        r@ == arch@ + "-"@ + os@,
{
    cat3(arch, "-", os)
}

/// The value of a variable; empty where it has none.
pub open spec fn value_of(env: Map<Seq<char>, Seq<char>>, name: Seq<char>) -> Seq<char> {
    if env.contains_key(name) {
        env[name]
    } else {
        Seq::empty()
    }
}

/// The globs that say which files go into a task's key.
pub open spec fn key_globs(t: ResolvedTaskModel, adapter: Option<AdapterFactsModel>) -> Seq<Seq<char>> {
    match adapter {
        Some(a) => union_of(t.inputs, a.fingerprint_files),
        None => t.inputs,
    }
}

/// The files of a unit that go into a task's key, in order. `walked` holds the paths of all files in
/// the unit's directory; it is `None` where there is no such directory.
pub fn key_files(
    task: &ResolvedTask,
    adapter: Option<&AdapterFacts>,
    walked: Option<&Vec<String>>,
) -> (r: Result<Vec<String>, GlobError>)
    ensures
        ({
            let globs = key_globs(task.deep_view(), adapter.deep_view());
            let derived = derived_globs(adapter.deep_view());
            if derived.len() > 0 && !globs_compile(derived) {
                r matches Err(e) && globs_fail(derived, e)
            } else {
                match walked.deep_view() {
                    Some(paths) if globs.len() > 0 => match r {
                        Ok(v) => globs_compile(globs) && v.deep_view() == sort_by(
                            matching(paths, globs, derived),
                            path_before(),
                        ),
                        Err(e) => !globs_compile(globs) && globs_fail(globs, e),
                    },
                    _ => r matches Ok(v) && v.deep_view() == Seq::<Seq<char>>::empty(),
                }
            }
        }),
{
    let globs = match adapter {
        Some(a) => union(&task.inputs, &a.fingerprint_files),
        None => copy_all(&task.inputs),
    };
    let derived = match adapter {
        Some(a) => {
            if a.derived_paths.len() == 0 {
                assert(deep(a.derived_paths@) =~= Seq::<Seq<char>>::empty());
                None
            } else {
                match build_matcher(&a.derived_paths) {
                    Ok(d) => Some(d),
                    Err(e) => {
                        return Err(e);
                    },
                }
            }
        },
        None => None,
    };
    let paths = match walked {
        Some(p) => p,
        None => {
            return Ok(Vec::new());
        },
    };
    if globs.len() == 0 {
        return Ok(Vec::new());
    }
    match build_matcher(&globs) {
        Ok(m) => Ok(select(paths, &m, derived.as_ref())),
        Err(e) => Err(e),
    }
}

/// What a file of a task's inputs was when its key was made.
#[derive(Debug)]
pub struct ManifestFile {
    pub path: String,
    /// The hexadecimal BLAKE3 digest of its content.
    pub blake3: String,
    pub size_bytes: u64,
}

#[verifier::ext_equal]
pub struct ManifestFileModel {
    pub path: Seq<char>,
    pub blake3: Seq<char>,
    pub size_bytes: u64,
}

impl DeepView for ManifestFile {
    type V = ManifestFileModel;

    open spec fn deep_view(&self) -> ManifestFileModel {
        ManifestFileModel { path: self.path@, blake3: self.blake3@, size_bytes: self.size_bytes }
    }
}

/// What a task's key was made of, kept to explain the key later.
#[derive(Debug)]
pub struct InputManifest {
    pub task_name: String,
    pub run: String,
    pub unit: String,
    pub adapter: Option<String>,
    pub toolchain: Option<String>,
    pub monad_version: String,
    pub host: Option<String>,
    pub env_vars: Vec<String>,
    pub files: Vec<ManifestFile>,
}

#[verifier::ext_equal]
pub struct InputManifestModel {
    pub task_name: Seq<char>,
    pub run: Seq<char>,
    pub unit: Seq<char>,
    pub adapter: Option<Seq<char>>,
    pub toolchain: Option<Seq<char>>,
    pub monad_version: Seq<char>,
    pub host: Option<Seq<char>>,
    pub env_vars: Seq<Seq<char>>,
    pub files: Seq<ManifestFileModel>,
}

impl DeepView for InputManifest {
    type V = InputManifestModel;

    open spec fn deep_view(&self) -> InputManifestModel {
        InputManifestModel {
            task_name: self.task_name@,
            run: self.run@,
            unit: self.unit@,
            adapter: self.adapter.deep_view(),
            toolchain: self.toolchain.deep_view(),
            monad_version: self.monad_version@,
            host: self.host.deep_view(),
            env_vars: self.env_vars.deep_view(),
            files: self.files.deep_view(),
        }
    }
}

/// A labelled value that goes into a key.
pub type Extra = (Seq<char>, Seq<char>);

/// The labelled values for a task's variables.
pub open spec fn env_extras(names: Seq<Seq<char>>, env: Map<Seq<char>, Seq<char>>) -> Seq<Extra> {
    names.map_values(|n: Seq<char>| ("env:"@ + n, value_of(env, n)))
}

/// The labelled values for the units that a unit depends on.
pub open spec fn dep_extras(deps: Seq<(Seq<char>, Seq<u8>)>) -> Seq<Extra> {
    deps.map_values(|d: (Seq<char>, Seq<u8>)| ("dep:"@ + d.0, hex_of(d.1)))
}

/// The labelled values for the tasks that a task depends on.
pub open spec fn task_dep_extras(deps: Seq<(Seq<char>, Seq<char>)>) -> Seq<Extra> {
    deps.map_values(|d: (Seq<char>, Seq<char>)| ("task_dep:"@ + d.0, d.1))
}

/// A tool and its version, as they go into a key.
pub open spec fn toolchain_text(a: AdapterFactsModel) -> Option<Seq<char>> {
    match a.required_toolchain {
        Some(v) => Some(v.tool + ":"@ + v.version),
        None => None,
    }
}

/// A labelled value where there is a value.
pub open spec fn optional(label: Seq<char>, value: Option<Seq<char>>) -> Seq<Extra> {
    match value {
        Some(v) => seq![(label, v)],
        None => Seq::empty(),
    }
}

/// The labelled values that go into a task's key before those of lists.
pub open spec fn head_extras(
    adapter: Option<AdapterFactsModel>,
    task: ResolvedTaskModel,
    image: Option<Seq<char>>,
    version: Seq<char>,
    host: Seq<char>,
) -> Seq<Extra> {
    let first = seq![
        ("monad_version"@, major_minor(version)),
        ("host"@, host),
        ("task_name"@, task.name),
        ("task_command"@, task.run),
    ] + optional("container_image"@, image);
    match adapter {
        Some(a) => first + optional("adapter"@, Some(a.id)) + optional("toolchain"@, toolchain_text(a))
            + optional("toolchain_resolved"@, a.resolved_toolchain),
        None => first,
    }
}

/// The labelled values that go into a task's key, in the order in which they go in.
pub open spec fn key_extras(
    adapter: Option<AdapterFactsModel>,
    task: ResolvedTaskModel,
    deps: Seq<(Seq<char>, Seq<u8>)>,
    image: Option<Seq<char>>,
    task_deps: Seq<(Seq<char>, Seq<char>)>,
    env: Map<Seq<char>, Seq<char>>,
    version: Seq<char>,
    host: Seq<char>,
) -> Seq<Extra> {
    head_extras(adapter, task, image, version, host) + env_extras(task.env, env) + dep_extras(deps)
        + task_dep_extras(task_deps)
}

/// What a manifest says of a file.
pub open spec fn manifest_file(f: SourceFileModel) -> ManifestFileModel {
    ManifestFileModel {
        path: f.rel,
        blake3: hex_of(blake3_of(f.content)),
        size_bytes: f.content.len() as u64,
    }
}

/// What a manifest says of a task's key.
pub open spec fn manifest_of(
    unit_name: Seq<char>,
    adapter: Option<AdapterFactsModel>,
    task: ResolvedTaskModel,
    version: Seq<char>,
    host: Seq<char>,
    files: Seq<SourceFileModel>,
) -> InputManifestModel {
    InputManifestModel {
        task_name: task.name,
        run: task.run,
        unit: unit_name,
        adapter: match adapter {
            Some(a) => Some(a.id),
            None => None,
        },
        toolchain: match adapter {
            Some(a) => toolchain_text(a),
            None => None,
        },
        monad_version: major_minor(version),
        host: Some(host),
        env_vars: task.env,
        files: files.map_values(|f: SourceFileModel| manifest_file(f)),
    }
}

/// What a task's key is made of: labelled values, then files.
#[derive(Debug)]
pub struct KeyMaterial {
    pub extras: Vec<(String, String)>,
    pub manifest: InputManifest,
}

fn push_extra(out: &mut Vec<(String, String)>, label: &str, value: &str)
    ensures
        deep(final(out)@) == deep(old(out)@).push((label@, value@)),
{
    let pair: (String, String) = (copy(label), copy(value));
    assert(pair.deep_view() == (label@, value@));
    out.push(pair);
}

fn push_optional(out: &mut Vec<(String, String)>, label: &str, value: &Option<String>)
    ensures
        deep(final(out)@) == deep(old(out)@) + optional(label@, value.deep_view()),
{
    match value {
        Some(v) => {
            push_extra(out, label, v.as_str());
            assert(deep(out@) =~= deep(old(out)@) + optional(label@, value.deep_view()));
        },
        None => {
            assert(deep(out@) + Seq::<Extra>::empty() =~= deep(out@));
        },
    }
}

/// What a task's key is made of, beside the contents of its files.
pub fn key_material(
    unit_name: &str,
    adapter: Option<&AdapterFacts>,
    task: &ResolvedTask,
    dep_signatures: &Vec<(String, UnitSig)>,
    container_image: Option<&str>,
    task_dep_keys: &Vec<(String, String)>,
    env: &StrMap<String>,
    version: &str,
    host: &str,
    files: &Vec<SourceFile>,
) -> (r: KeyMaterial)
    ensures
        r.extras.deep_view() == key_extras(
            adapter.deep_view(),
            task.deep_view(),
            dep_signatures.deep_view(),
            container_image.deep_view(),
            task_dep_keys.deep_view(),
            env@,
            version@,
            host@,
        ),
        r.manifest.deep_view() == manifest_of(
            unit_name@,
            adapter.deep_view(),
            task.deep_view(),
            version@,
            host@,
            files.deep_view(),
        ),
{
    let ghost t = task.deep_view();
    let ghost a_model = adapter.deep_view();
    let ghost image = container_image.deep_view();
    let mut extras: Vec<(String, String)> = Vec::new();
    let monad_version = monad_version_major_minor(version);
    push_extra(&mut extras, "monad_version", monad_version.as_str());
    push_extra(&mut extras, "host", host);
    push_extra(&mut extras, "task_name", task.name.as_str());
    push_extra(&mut extras, "task_command", task.run.as_str());
    let ghost first = seq![
        ("monad_version"@, major_minor(version@)),
        ("host"@, host@),
        ("task_name"@, t.name),
        ("task_command"@, t.run),
    ];
    proof {
        assert(deep(extras@) =~= first);
    }
    match container_image {
        Some(img) => {
            push_extra(&mut extras, "container_image", img);
            assert(deep(extras@) =~= first + optional("container_image"@, image));
        },
        None => {
            assert(deep(extras@) =~= first + optional("container_image"@, image));
        },
    }
    let mut adapter_id: Option<String> = None;
    let mut toolchain: Option<String> = None;
    if let Some(a) = adapter {
        let id: Option<String> = Some(copy(a.id.as_str()));
        push_optional(&mut extras, "adapter", &id);
        adapter_id = id;
        let desc: Option<String> = match &a.required_toolchain {
            Some(v) => Some(cat3(v.tool.as_str(), ":", v.version.as_str())),
            None => None,
        };
        assert(desc.deep_view() == toolchain_text(a.deep_view()));
        push_optional(&mut extras, "toolchain", &desc);
        toolchain = desc;
        push_optional(&mut extras, "toolchain_resolved", &a.resolved_toolchain);
    }
    let ghost head = head_extras(a_model, t, image, version@, host@);
    assert(deep(extras@) =~= head);
    let ghost want = env_extras(t.env, env@);
    assert(head + want.take(0) =~= head);
    let mut i: usize = 0;
    while i < task.env.len()
        invariant
            i <= task.env@.len(),
            t == task.deep_view(),
            want == env_extras(t.env, env@),
            deep(extras@) == head + want.take(i as int),
        decreases task.env.len() - i,
    {
        let name = task.env[i].as_str();
        let label = cat("env:", name);
        let empty = String::new();
        let value = match env.get(name) {
            Some(v) => v,
            None => &empty,
        };
        proof {
            assert(want[i as int] == ("env:"@ + name@, value_of(env@, name@)));
            assert(empty@ =~= Seq::<char>::empty());
            assert((head + want.take(i as int)).push(want[i as int]) =~= head + want.take(i + 1));
        }
        push_extra(&mut extras, label.as_str(), value.as_str());
        i += 1;
    }
    let ghost head = head + want;
    let ghost want = dep_extras(deep(dep_signatures@));
    assert(head + want.take(0) =~= head);
    let mut i: usize = 0;
    while i < dep_signatures.len()
        invariant
            i <= dep_signatures@.len(),
            want == dep_extras(deep(dep_signatures@)),
            deep(extras@) == head + want.take(i as int),
        decreases dep_signatures.len() - i,
    {
        let label = cat("dep:", dep_signatures[i].0.as_str());
        let hex = sig_to_hex(&dep_signatures[i].1);
        proof {
            assert(dep_signatures@[i as int].1.deep_view() =~= dep_signatures@[i as int].1@);
            assert(want[i as int] == (label@, hex@));
            assert((head + want.take(i as int)).push(want[i as int]) =~= head + want.take(i + 1));
        }
        push_extra(&mut extras, label.as_str(), hex.as_str());
        i += 1;
    }
    let ghost head = head + want;
    let ghost want = task_dep_extras(deep(task_dep_keys@));
    assert(head + want.take(0) =~= head);
    let mut i: usize = 0;
    while i < task_dep_keys.len()
        invariant
            i <= task_dep_keys@.len(),
            want == task_dep_extras(deep(task_dep_keys@)),
            deep(extras@) == head + want.take(i as int),
        decreases task_dep_keys.len() - i,
    {
        let label = cat("task_dep:", task_dep_keys[i].0.as_str());
        proof {
            assert(want[i as int] == (label@, task_dep_keys@[i as int].1@));
            assert((head + want.take(i as int)).push(want[i as int]) =~= head + want.take(i + 1));
        }
        push_extra(&mut extras, label.as_str(), task_dep_keys[i].1.as_str());
        i += 1;
    }
    let ghost want = deep(files@).map_values(|f: SourceFileModel| manifest_file(f));
    let mut listed: Vec<ManifestFile> = Vec::new();
    let mut i: usize = 0;
    while i < files.len()
        invariant
            i <= files@.len(),
            want == deep(files@).map_values(|f: SourceFileModel| manifest_file(f)),
            deep(listed@) == want.take(i as int),
        decreases files.len() - i,
    {
        let f = &files[i];
        let hash = digest(&f.content);
        let entry = ManifestFile {
            path: copy(f.rel.as_str()),
            blake3: to_hex(hash.as_slice()),
            size_bytes: f.content.len() as u64,
        };
        proof {
            assert(want[i as int] == entry.deep_view());
        }
        listed.push(entry);
        i += 1;
    }
    KeyMaterial {
        extras,
        manifest: InputManifest {
            task_name: copy(task.name.as_str()),
            run: copy(task.run.as_str()),
            unit: copy(unit_name),
            adapter: adapter_id,
            toolchain,
            monad_version,
            host: Some(copy(host)),
            env_vars: copy_all(&task.env),
            files: listed,
        },
    }
}

/// A labelled value, as it goes into a key: like a file, with the label for its path and the bytes of
/// the value for its content.
pub open spec fn as_file(e: Extra) -> SourceFileModel {
    SourceFileModel { rel: e.0, content: utf8(e.1) }
}

/// The labelled values as they go into a key.
pub open spec fn as_files(extras: Seq<Extra>) -> Seq<SourceFileModel> {
    extras.map_values(|e: Extra| as_file(e))
}

/// The message whose digest is a key: how many labelled values there are, the labelled values, and the
/// files, with the length of each part before it.
pub open spec fn key_message(extras: Seq<Extra>, files: Seq<SourceFileModel>) -> Seq<u8> {
    le_bytes(extras.len(), 8) + files_bytes(as_files(extras) + files)
}

/// The cache key of labelled values and files.
pub open spec fn key_text(extras: Seq<Extra>, files: Seq<SourceFileModel>) -> Seq<char> {
    hex_of(blake3_of(key_message(extras, files)))
}

/// The cache key of a task, from what it is made of: labelled values, and the files with their
/// contents.
pub fn cache_key(material: &KeyMaterial, files: &Vec<SourceFile>) -> (r: String)
    ensures
        r@ == key_text(material.extras.deep_view(), files.deep_view()),
{
    let ghost extras = deep(material.extras@);
    let ghost first = as_files(extras);
    let ghost all = first + deep(files@);
    let ghost head = le_bytes(extras.len(), 8);
    let mut message: Vec<u8> = Vec::new();
    push_u64(&mut message, material.extras.len() as u64);
    assert(message@ =~= head + files_bytes(all.take(0)));
    let mut i: usize = 0;
    while i < material.extras.len()
        invariant
            i <= material.extras@.len() == first.len(),
            extras == deep(material.extras@),
            first == as_files(extras),
            all == first + deep(files@),
            message@ == head + files_bytes(all.take(i as int)),
        decreases material.extras.len() - i,
    {
        let e = &material.extras[i];
        let value = e.1.as_str().as_bytes();
        let ghost f = SourceFileModel { rel: e.0@, content: value@ };
        proof {
            assert(extras[i as int] == (e.0@, e.1@));
            assert(first[i as int] == as_file(extras[i as int]));
            assert(all[i as int] == f);
            assert(all.take(i + 1).drop_last() =~= all.take(i as int));
            assert(all.take(i + 1).last() == f);
            assert(head + files_bytes(all.take(i + 1)) =~= message@ + crate::cascade::file_bytes(f));
        }
        push_file(&mut message, e.0.as_str(), value);
        i += 1;
    }
    let n: usize = i;
    let mut i: usize = 0;
    while i < files.len()
        invariant
            i <= files@.len(),
            n == first.len(),
            all == first + deep(files@),
            message@ == head + files_bytes(all.take(n + i)),
        decreases files.len() - i,
    {
        let f = &files[i];
        proof {
            assert(all[n + i] == f.deep_view());
            assert(all.take(n + i + 1).drop_last() =~= all.take(n + i));
            assert(all.take(n + i + 1).last() == f.deep_view());
            assert(head + files_bytes(all.take(n + i + 1)) =~= message@ + crate::cascade::file_bytes(
                f.deep_view(),
            ));
        }
        push_file(&mut message, f.rel.as_str(), f.content.as_slice());
        i += 1;
    }
    assert(all.take(n + i) =~= all);
    to_hex(digest(&message).as_slice())
}

/// Whether the lengths of a labelled value's parts fit in eight bytes.
pub open spec fn extra_fits(e: Extra) -> bool {
    utf8(e.0).len() < byte_range(8) && utf8(e.1).len() < byte_range(8)
}

/// Different labelled values, or different files, make different messages.
pub proof fn law_key_message_injective(
    a: Seq<Extra>,
    f: Seq<SourceFileModel>,
    b: Seq<Extra>,
    g: Seq<SourceFileModel>,
)
    requires
        a.len() < byte_range(8),
        b.len() < byte_range(8),
        forall|i: int| 0 <= i < a.len() ==> extra_fits(#[trigger] a[i]),
        forall|i: int| 0 <= i < b.len() ==> extra_fits(#[trigger] b[i]),
        forall|i: int| 0 <= i < f.len() ==> file_fits(#[trigger] f[i]),
        forall|i: int| 0 <= i < g.len() ==> file_fits(#[trigger] g[i]),
        key_message(a, f) == key_message(b, g),
    ensures
        a == b,
        f == g,
{
    let x = as_files(a) + f;
    let y = as_files(b) + g;
    lemma_le_bytes(a.len(), b.len(), 8);
    lemma_le_bytes(b.len(), a.len(), 8);
    assert(key_message(a, f).take(8) =~= le_bytes(a.len(), 8));
    assert(key_message(b, g).take(8) =~= le_bytes(b.len(), 8));
    assert(key_message(a, f).skip(8) =~= files_bytes(x));
    assert(key_message(b, g).skip(8) =~= files_bytes(y));
    assert forall|i: int| 0 <= i < x.len() implies file_fits(#[trigger] x[i]) by {
        if i < a.len() {
            assert(extra_fits(a[i]));
            assert(x[i] == as_file(a[i]));
        } else {
            assert(x[i] == f[i - a.len()]);
        }
    }
    assert forall|i: int| 0 <= i < y.len() implies file_fits(#[trigger] y[i]) by {
        if i < b.len() {
            assert(extra_fits(b[i]));
            assert(y[i] == as_file(b[i]));
        } else {
            assert(y[i] == g[i - b.len()]);
        }
    }
    lemma_files_bytes_injective(x, y);
    assert forall|i: int| 0 <= i < a.len() implies a[i] == b[i] by {
        assert(x[i] == as_file(a[i]) && y[i] == as_file(b[i]));
        vstd::utf8::encode_utf8_decode_utf8(a[i].1);
        vstd::utf8::encode_utf8_decode_utf8(b[i].1);
    }
    assert(a =~= b);
    assert(f =~= x.skip(a.len() as int));
    assert(g =~= y.skip(b.len() as int));
}

/// The keys known of the tasks that a task depends on, in the order in which it names them.
pub open spec fn known_keys(deps: Seq<Seq<char>>, keys: Map<Seq<char>, Seq<char>>) -> Seq<(Seq<char>, Seq<char>)>
    decreases deps.len(),
{
    if deps.len() == 0 {
        Seq::empty()
    } else if keys.contains_key(deps.last()) {
        known_keys(deps.drop_last(), keys).push((deps.last(), keys[deps.last()]))
    } else {
        known_keys(deps.drop_last(), keys)
    }
}

/// The keys known of the tasks that a task depends on.
pub fn task_dep_keys(task: &ResolvedTask, computed: &StrMap<String>) -> (r: Vec<(String, String)>)
    ensures
        r.deep_view() == known_keys(task.deep_view().depends_on, computed@),
{
    let ghost all = deep(task.depends_on@);
    let mut r: Vec<(String, String)> = Vec::new();
    let mut i: usize = 0;
    while i < task.depends_on.len()
        invariant
            i <= task.depends_on@.len(),
            all == deep(task.depends_on@),
            deep(r@) == known_keys(all.take(i as int), computed@),
        decreases task.depends_on.len() - i,
    {
        let dep = task.depends_on[i].as_str();
        proof {
            assert(all.take(i + 1).drop_last() =~= all.take(i as int));
        }
        if let Some(k) = computed.get(dep) {
            push_extra(&mut r, dep, k.as_str());
        }
        i += 1;
    }
    r
}

/// A key takes in the signature of each unit that the unit depends on: where a signature changes,
/// what the key is made of changes.
pub proof fn law_key_sees_dependencies(
    adapter: Option<AdapterFactsModel>,
    task: ResolvedTaskModel,
    a: Seq<(Seq<char>, Seq<u8>)>,
    b: Seq<(Seq<char>, Seq<u8>)>,
    image: Option<Seq<char>>,
    task_deps: Seq<(Seq<char>, Seq<char>)>,
    env: Map<Seq<char>, Seq<char>>,
    version: Seq<char>,
    host: Seq<char>,
)
    requires
        key_extras(adapter, task, a, image, task_deps, env, version, host) == key_extras(
            adapter,
            task,
            b,
            image,
            task_deps,
            env,
            version,
            host,
        ),
    ensures
        a == b,
{
    let head = head_extras(adapter, task, image, version, host) + env_extras(task.env, env);
    let x = key_extras(adapter, task, a, image, task_deps, env, version, host);
    let y = key_extras(adapter, task, b, image, task_deps, env, version, host);
    let n = head.len() as int;
    assert(x.len() == n + a.len() + task_deps.len() && y.len() == n + b.len() + task_deps.len());
    assert forall|i: int| 0 <= i < a.len() implies a[i] == b[i] by {
        assert(x[n + i] == dep_extras(a)[i]);
        assert(y[n + i] == dep_extras(b)[i]);
        assert(("dep:"@ + a[i].0).skip("dep:"@.len() as int) =~= a[i].0);
        assert(("dep:"@ + b[i].0).skip("dep:"@.len() as int) =~= b[i].0);
        crate::digest::law_hex_of(a[i].1, b[i].1);
    }
    assert(a =~= b);
}

/// A key takes in the key of each task that the task depends on: where such a key changes, what the
/// key is made of changes.
pub proof fn law_key_sees_task_keys(
    adapter: Option<AdapterFactsModel>,
    task: ResolvedTaskModel,
    deps: Seq<(Seq<char>, Seq<u8>)>,
    image: Option<Seq<char>>,
    a: Seq<(Seq<char>, Seq<char>)>,
    b: Seq<(Seq<char>, Seq<char>)>,
    env: Map<Seq<char>, Seq<char>>,
    version: Seq<char>,
    host: Seq<char>,
)
    requires
        key_extras(adapter, task, deps, image, a, env, version, host) == key_extras(
            adapter,
            task,
            deps,
            image,
            b,
            env,
            version,
            host,
        ),
    ensures
        a == b,
{
    let head = head_extras(adapter, task, image, version, host) + env_extras(task.env, env) + dep_extras(
        deps,
    );
    let x = key_extras(adapter, task, deps, image, a, env, version, host);
    let y = key_extras(adapter, task, deps, image, b, env, version, host);
    let n = head.len() as int;
    assert(x.len() == n + a.len() && y.len() == n + b.len());
    assert forall|i: int| 0 <= i < a.len() implies a[i] == b[i] by {
        assert(x[n + i] == task_dep_extras(a)[i]);
        assert(y[n + i] == task_dep_extras(b)[i]);
        assert(("task_dep:"@ + a[i].0).skip("task_dep:"@.len() as int) =~= a[i].0);
        assert(("task_dep:"@ + b[i].0).skip("task_dep:"@.len() as int) =~= b[i].0);
    }
    assert(a =~= b);
}

/// The keys of some tasks by their names; of tasks with one name, the key of the last.
pub open spec fn keys_by_task(tasks: Seq<ResolvedTaskModel>, keys: Seq<Seq<char>>) -> Map<Seq<char>, Seq<char>>
    decreases keys.len(),
{
    if keys.len() == 0 {
        Map::empty()
    } else {
        keys_by_task(tasks, keys.drop_last()).insert(tasks[keys.len() - 1].name, keys.last())
    }
}

/// The keys that the next task takes in, where `keys` holds those of the tasks before it.
pub fn next_dep_keys(tasks: &Vec<ResolvedTask>, keys: &Vec<String>) -> (r: Vec<(String, String)>)
    requires
        keys@.len() < tasks@.len(),
    ensures
        r.deep_view() == known_keys(
            tasks.deep_view()[keys@.len() as int].depends_on,
            keys_by_task(tasks.deep_view(), keys.deep_view()),
        ),
{
    let ghost all = deep(keys@);
    let mut computed: StrMap<String> = StrMap::new();
    let mut i: usize = 0;
    assert(computed@ =~= keys_by_task(deep(tasks@), all.take(0)));
    while i < keys.len()
        invariant
            i <= keys@.len(),
            keys@.len() < tasks@.len(),
            all == deep(keys@),
            computed@ == keys_by_task(deep(tasks@), all.take(i as int)),
        decreases keys.len() - i,
    {
        proof {
            assert(all.take(i + 1).drop_last() =~= all.take(i as int));
            assert(deep(tasks@)[i as int].name == tasks@[i as int].name@);
        }
        computed.insert(copy(tasks[i].name.as_str()), copy(keys[i].as_str()));
        i += 1;
    }
    task_dep_keys(&tasks[keys.len()], &computed)
}

/// A key sees the version, the host, and the name and the command of the task.
pub proof fn law_key_sees_the_command(
    adapters: (Option<AdapterFactsModel>, Option<AdapterFactsModel>),
    tasks: (ResolvedTaskModel, ResolvedTaskModel),
    deps: (Seq<(Seq<char>, Seq<u8>)>, Seq<(Seq<char>, Seq<u8>)>),
    images: (Option<Seq<char>>, Option<Seq<char>>),
    task_deps: (Seq<(Seq<char>, Seq<char>)>, Seq<(Seq<char>, Seq<char>)>),
    envs: (Map<Seq<char>, Seq<char>>, Map<Seq<char>, Seq<char>>),
    versions: (Seq<char>, Seq<char>),
    hosts: (Seq<char>, Seq<char>),
)
    requires
        key_extras(adapters.0, tasks.0, deps.0, images.0, task_deps.0, envs.0, versions.0, hosts.0) == key_extras(
            adapters.1,
            tasks.1,
            deps.1,
            images.1,
            task_deps.1,
            envs.1,
            versions.1,
            hosts.1,
        ),
    ensures
        tasks.0.name == tasks.1.name,
        tasks.0.run == tasks.1.run,
        major_minor(versions.0) == major_minor(versions.1),
        hosts.0 == hosts.1,
{
    let x = key_extras(adapters.0, tasks.0, deps.0, images.0, task_deps.0, envs.0, versions.0, hosts.0);
    let y = key_extras(adapters.1, tasks.1, deps.1, images.1, task_deps.1, envs.1, versions.1, hosts.1);
    assert(x[0].1 == major_minor(versions.0) && y[0].1 == major_minor(versions.1));
    assert(x[1].1 == hosts.0 && y[1].1 == hosts.1);
    assert(x[2].1 == tasks.0.name && y[2].1 == tasks.1.name);
    assert(x[3].1 == tasks.0.run && y[3].1 == tasks.1.run);
}

/// A key sees the container image: with another image, or with none in place of one, what it is made
/// of differs.
pub proof fn law_key_sees_the_image(
    adapter: Option<AdapterFactsModel>,
    task: ResolvedTaskModel,
    deps: Seq<(Seq<char>, Seq<u8>)>,
    a: Option<Seq<char>>,
    b: Option<Seq<char>>,
    task_deps: Seq<(Seq<char>, Seq<char>)>,
    env: Map<Seq<char>, Seq<char>>,
    version: Seq<char>,
    host: Seq<char>,
)
    requires
        key_extras(adapter, task, deps, a, task_deps, env, version, host) == key_extras(
            adapter,
            task,
            deps,
            b,
            task_deps,
            env,
            version,
            host,
        ),
    ensures
        a == b,
{
    let x = key_extras(adapter, task, deps, a, task_deps, env, version, host);
    let y = key_extras(adapter, task, deps, b, task_deps, env, version, host);
    let rest = env_extras(task.env, env).len() + dep_extras(deps).len() + task_dep_extras(task_deps).len();
    assert(x.len() == head_extras(adapter, task, a, version, host).len() + rest);
    assert(y.len() == head_extras(adapter, task, b, version, host).len() + rest);
    assert(a is Some == b is Some);
    if let (Some(i), Some(j)) = (a, b) {
        assert(x[4].1 == i && y[4].1 == j);
    }
}

/// A key sees the values of the variables that the task declares; one that is not set counts as empty.
pub proof fn law_key_sees_the_environment(
    adapter: Option<AdapterFactsModel>,
    task: ResolvedTaskModel,
    deps: Seq<(Seq<char>, Seq<u8>)>,
    image: Option<Seq<char>>,
    task_deps: Seq<(Seq<char>, Seq<char>)>,
    a: Map<Seq<char>, Seq<char>>,
    b: Map<Seq<char>, Seq<char>>,
    version: Seq<char>,
    host: Seq<char>,
)
    requires
        key_extras(adapter, task, deps, image, task_deps, a, version, host) == key_extras(
            adapter,
            task,
            deps,
            image,
            task_deps,
            b,
            version,
            host,
        ),
    ensures
        forall|i: int|
            0 <= i < task.env.len() ==> value_of(a, #[trigger] task.env[i]) == value_of(b, task.env[i]),
{
    let x = key_extras(adapter, task, deps, image, task_deps, a, version, host);
    let y = key_extras(adapter, task, deps, image, task_deps, b, version, host);
    let n = head_extras(adapter, task, image, version, host).len() as int;
    assert forall|i: int| 0 <= i < task.env.len() implies value_of(a, #[trigger] task.env[i]) == value_of(
        b,
        task.env[i],
    ) by {
        assert(x[n + i] == env_extras(task.env, a)[i]);
        assert(y[n + i] == env_extras(task.env, b)[i]);
    }
}

/// A manifest sees the files: with another path or another content, what it says differs. The digest is
/// taken to tell the contents at hand apart.
pub proof fn law_manifest_sees_the_files(a: Seq<SourceFileModel>, b: Seq<SourceFileModel>)
    requires
        a.map_values(|f: SourceFileModel| manifest_file(f)) == b.map_values(|f: SourceFileModel| manifest_file(f)),
        forall|i: int|
            0 <= i < a.len() && 0 <= i < b.len() && blake3_of((#[trigger] a[i]).content) == blake3_of(b[i].content)
                ==> a[i].content == b[i].content,
    ensures
        a == b,
{
    let x = a.map_values(|f: SourceFileModel| manifest_file(f));
    let y = b.map_values(|f: SourceFileModel| manifest_file(f));
    assert(x.len() == a.len() && y.len() == b.len());
    assert forall|i: int| 0 <= i < a.len() implies a[i] == b[i] by {
        assert(x[i] == manifest_file(a[i]) && y[i] == manifest_file(b[i]));
        crate::digest::law_hex_of(blake3_of(a[i].content), blake3_of(b[i].content));
    }
    assert(a =~= b);
}

/// All that a task's cache key depends on.
pub struct KeyInputs {
    pub adapter: Option<AdapterFactsModel>,
    pub task: ResolvedTaskModel,
    /// The signatures of the units that the unit depends on.
    pub deps: Seq<(Seq<char>, Seq<u8>)>,
    pub image: Option<Seq<char>>,
    /// The keys of the tasks that the task depends on.
    pub task_deps: Seq<(Seq<char>, Seq<char>)>,
    pub env: Map<Seq<char>, Seq<char>>,
    pub version: Seq<char>,
    pub host: Seq<char>,
    pub files: Seq<SourceFileModel>,
}

impl KeyInputs {
    /// The labelled values that go into the key.
    pub open spec fn extras(self) -> Seq<Extra> {
        key_extras(
            self.adapter,
            self.task,
            self.deps,
            self.image,
            self.task_deps,
            self.env,
            self.version,
            self.host,
        )
    }

    /// The key.
    pub open spec fn key(self) -> Seq<char> {
        key_text(self.extras(), self.files)
    }

    /// Whether the lengths of all parts fit in eight bytes.
    pub open spec fn fits(self) -> bool {
        &&& self.extras().len() < byte_range(8)
        &&& forall|i: int| 0 <= i < self.extras().len() ==> extra_fits(#[trigger] self.extras()[i])
        &&& forall|i: int| 0 <= i < self.files.len() ==> file_fits(#[trigger] self.files[i])
    }
}

/// The cache key of a task, and what it is made of. `files` are the task's input files with their
/// contents, as [`key_files`] lists them; `env` holds the variables of the process.
pub fn compute_key(
    unit_name: &str,
    adapter: Option<&AdapterFacts>,
    task: &ResolvedTask,
    dep_signatures: &Vec<(String, UnitSig)>,
    container_image: Option<&str>,
    task_dep_keys: &Vec<(String, String)>,
    env: &StrMap<String>,
    version: &str,
    host: &str,
    files: &Vec<SourceFile>,
) -> (r: (String, InputManifest))
    ensures
        r.0@ == (KeyInputs {
            adapter: adapter.deep_view(),
            task: task.deep_view(),
            deps: dep_signatures.deep_view(),
            image: container_image.deep_view(),
            task_deps: task_dep_keys.deep_view(),
            env: env@,
            version: version@,
            host: host@,
            files: files.deep_view(),
        }).key(),
        r.1.deep_view() == manifest_of(
            unit_name@,
            adapter.deep_view(),
            task.deep_view(),
            version@,
            host@,
            files.deep_view(),
        ),
{
    let material = key_material(
        unit_name,
        adapter,
        task,
        dep_signatures,
        container_image,
        task_dep_keys,
        env,
        version,
        host,
        files,
    );
    let key = cache_key(&material, files);
    (key, material.manifest)
}

/// Whether the digest tells the messages of two keys apart.
pub open spec fn keys_apart(x: KeyInputs, y: KeyInputs) -> bool {
    let m = key_message(x.extras(), x.files);
    let n = key_message(y.extras(), y.files);
    blake3_of(m) == blake3_of(n) ==> m == n
}

/// Two keys are equal if and only if the labelled values and the files that they are made of are. The
/// digest is taken to tell the two messages apart.
pub proof fn law_keys_are_what_they_are_made_of(x: KeyInputs, y: KeyInputs)
    requires
        x.fits(),
        y.fits(),
        keys_apart(x, y),
    ensures
        x.key() == y.key() <==> x.extras() == y.extras() && x.files == y.files,
{
    let m = key_message(x.extras(), x.files);
    let n = key_message(y.extras(), y.files);
    crate::digest::law_hex_of(blake3_of(m), blake3_of(n));
    if m == n {
        law_key_message_injective(x.extras(), x.files, y.extras(), y.files);
    }
}

/// A key changes with each of the things that it depends on: with the key of a task that the task
/// depends on, with the signature of a unit that the unit depends on, with the container image, with
/// the path or the content of a file, with the value of a variable that the task declares, with the
/// name and the command of the task, with the host and with the version up to its minor part. The
/// digest is taken to tell the two messages apart.
pub proof fn law_each_input_changes_the_key(x: KeyInputs, y: KeyInputs)
    requires
        x.fits(),
        y.fits(),
        keys_apart(x, y),
    ensures
        y == (KeyInputs { task_deps: y.task_deps, ..x }) && x.task_deps != y.task_deps ==> x.key() != y.key(),
        y == (KeyInputs { deps: y.deps, ..x }) && x.deps != y.deps ==> x.key() != y.key(),
        y == (KeyInputs { image: y.image, ..x }) && x.image != y.image ==> x.key() != y.key(),
        y == (KeyInputs { env: y.env, ..x }) && (exists|i: int|
            0 <= i < x.task.env.len() && value_of(x.env, #[trigger] x.task.env[i]) != value_of(
                y.env,
                x.task.env[i],
            )) ==> x.key() != y.key(),
        x.files != y.files ==> x.key() != y.key(),
        x.task.run != y.task.run ==> x.key() != y.key(),
        x.task.name != y.task.name ==> x.key() != y.key(),
        x.host != y.host ==> x.key() != y.key(),
        major_minor(x.version) != major_minor(y.version) ==> x.key() != y.key(),
{
    law_keys_are_what_they_are_made_of(x, y);
    if x.extras() == y.extras() {
        law_key_sees_the_command(
            (x.adapter, y.adapter),
            (x.task, y.task),
            (x.deps, y.deps),
            (x.image, y.image),
            (x.task_deps, y.task_deps),
            (x.env, y.env),
            (x.version, y.version),
            (x.host, y.host),
        );
        if y == (KeyInputs { task_deps: y.task_deps, ..x }) {
            law_key_sees_task_keys(
                x.adapter,
                x.task,
                x.deps,
                x.image,
                x.task_deps,
                y.task_deps,
                x.env,
                x.version,
                x.host,
            );
        }
        if y == (KeyInputs { deps: y.deps, ..x }) {
            law_key_sees_dependencies(
                x.adapter,
                x.task,
                x.deps,
                y.deps,
                x.image,
                x.task_deps,
                x.env,
                x.version,
                x.host,
            );
        }
        if y == (KeyInputs { image: y.image, ..x }) {
            law_key_sees_the_image(
                x.adapter,
                x.task,
                x.deps,
                x.image,
                y.image,
                x.task_deps,
                x.env,
                x.version,
                x.host,
            );
        }
        if y == (KeyInputs { env: y.env, ..x }) {
            law_key_sees_the_environment(
                x.adapter,
                x.task,
                x.deps,
                x.image,
                x.task_deps,
                x.env,
                y.env,
                x.version,
                x.host,
            );
        }
    }
}

/// Which part of a key a label belongs to.
#[verifier::opaque]
spec fn part_of(label: Seq<char>) -> int {
    if label.len() >= 4 && label.take(4) == "env:"@ {
        5
    } else if label.len() >= 4 && label.take(4) == "dep:"@ {
        6
    } else if label.len() >= 9 && label.take(9) == "task_dep:"@ {
        7
    } else if label == "container_image"@ {
        1
    } else if label == "adapter"@ {
        2
    } else if label == "toolchain"@ {
        3
    } else if label == "toolchain_resolved"@ {
        4
    } else {
        0
    }
}

/// The labelled values of one part.
spec fn picked(s: Seq<Extra>, k: int) -> Seq<Extra> {
    s.filter(|e: Extra| part_of(e.0) == k)
}

/// Whether all labelled values of a sequence belong to one part.
#[verifier::opaque]
spec fn all_of(s: Seq<Extra>, k: int) -> bool {
    forall|i: int| 0 <= i < s.len() ==> part_of((#[trigger] s[i]).0) == k
}

proof fn lemma_picked_one(s: Seq<Extra>, j: int, k: int)
    requires
        all_of(s, j),
    ensures
        picked(s, k) == (if j == k {
            s
        } else {
            Seq::empty()
        }),
    decreases s.len(),
{
    reveal(Seq::filter);
    reveal(all_of);
    if s.len() > 0 {
        assert(part_of(s[s.len() - 1].0) == j);
        assert forall|i: int| 0 <= i < s.drop_last().len() implies part_of((#[trigger] s.drop_last()[i]).0)
            == j by {
            assert(s.drop_last()[i] == s[i]);
        }
        lemma_picked_one(s.drop_last(), j, k);
        assert(s.drop_last().push(s.last()) =~= s);
    }
}

proof fn lemma_parts(x: KeyInputs)
    ensures
        all_of(
            seq![
                ("monad_version"@, major_minor(x.version)),
                ("host"@, x.host),
                ("task_name"@, x.task.name),
                ("task_command"@, x.task.run),
            ],
            0,
        ),
        all_of(optional("container_image"@, x.image), 1),
        forall|v: Option<Seq<char>>| all_of(#[trigger] optional("adapter"@, v), 2),
        forall|v: Option<Seq<char>>| all_of(#[trigger] optional("toolchain"@, v), 3),
        forall|v: Option<Seq<char>>| all_of(#[trigger] optional("toolchain_resolved"@, v), 4),
        all_of(env_extras(x.task.env, x.env), 5),
        all_of(dep_extras(x.deps), 6),
        all_of(task_dep_extras(x.task_deps), 7),
{
    reveal(part_of);
    reveal(all_of);
    reveal_strlit("monad_version");
    reveal_strlit("host");
    reveal_strlit("task_name");
    reveal_strlit("task_command");
    reveal_strlit("container_image");
    reveal_strlit("adapter");
    reveal_strlit("toolchain");
    reveal_strlit("toolchain_resolved");
    reveal_strlit("env:");
    reveal_strlit("dep:");
    reveal_strlit("task_dep:");
    assert forall|s: Seq<char>| s.len() >= 4 && #[trigger] s.take(4) == "env:"@ implies s[0] == 'e' by {
        assert(s.take(4)[0] == s[0]);
    }
    assert forall|s: Seq<char>| s.len() >= 4 && #[trigger] s.take(4) == "dep:"@ implies s[0] == 'd' by {
        assert(s.take(4)[0] == s[0]);
    }
    assert forall|s: Seq<char>| s.len() >= 9 && #[trigger] s.take(9) == "task_dep:"@ implies s[0] == 't' && s[5]
        == 'd' by {
        assert(s.take(9)[0] == s[0]);
        assert(s.take(9)[5] == s[5]);
    }
    assert forall|n: Seq<char>| part_of(#[trigger] ("env:"@ + n)) == 5 by {
        assert(("env:"@ + n).take(4) =~= "env:"@);
    }
    assert forall|n: Seq<char>| part_of(#[trigger] ("dep:"@ + n)) == 6 by {
        assert(("dep:"@ + n).take(4) =~= "dep:"@);
        assert(("dep:"@ + n)[0] == 'd');
    }
    assert forall|n: Seq<char>| part_of(#[trigger] ("task_dep:"@ + n)) == 7 by {
        assert(("task_dep:"@ + n).take(9) =~= "task_dep:"@);
        assert(("task_dep:"@ + n)[0] == 't');
    }
    assert("monad_version"@[0] == 'm' && "host"@[0] == 'h' && "task_name"@[5] == 'n' && "task_command"@[5] == 'c');
    assert("container_image"@[0] == 'c' && "adapter"@[0] == 'a' && "toolchain"@[5] == 'h');
    assert("task_name"@[0] == 't' && "task_command"@[0] == 't' && "toolchain"@[0] == 't');
    assert("toolchain_resolved"@[0] == 't' && "toolchain_resolved"@[5] == 'h');
    assert("toolchain"@.len() == 9 && "toolchain_resolved"@.len() == 18);
    assert("task_name"@[1] == 'a' && "task_command"@[1] == 'a' && "toolchain"@[1] == 'o');
    assert("toolchain_resolved"@[1] == 'o');
}

/// The sequences of the parts, one after the other.
spec fn in_turn(p: Seq<Seq<Extra>>) -> Seq<Extra>
    decreases p.len(),
{
    if p.len() == 0 {
        Seq::empty()
    } else {
        in_turn(p.drop_last()) + p.last()
    }
}

proof fn lemma_joined_picked(p: Seq<Seq<Extra>>, k: int)
    requires
        forall|i: int| 0 <= i < p.len() ==> all_of(#[trigger] p[i], i),
    ensures
        picked(in_turn(p), k) == (if 0 <= k < p.len() {
            p[k]
        } else {
            Seq::empty()
        }),
    decreases p.len(),
{
    if p.len() == 0 {
        reveal(Seq::filter);
    } else {
        let rest = p.drop_last();
        let n = p.len() - 1;
        assert forall|i: int| 0 <= i < rest.len() implies all_of(#[trigger] rest[i], i) by {
            assert(rest[i] == p[i]);
        }
        lemma_joined_picked(rest, k);
        assert(all_of(p[n], n));
        lemma_picked_one(p.last(), n, k);
        Seq::filter_distributes_over_add(in_turn(rest), p.last(), |e: Extra| part_of(e.0) == k);
        assert(picked(in_turn(p), k) =~= picked(in_turn(rest), k) + picked(p.last(), k));
        assert(picked(in_turn(p), k) =~= if 0 <= k < p.len() {
            p[k]
        } else {
            Seq::empty()
        });
    }
}

/// The parts of a key.
spec fn parts(x: KeyInputs) -> Seq<Seq<Extra>> {
    let none: Option<Seq<char>> = None;
    let (id, tool, found) = match x.adapter {
        Some(a) => (Some(a.id), toolchain_text(a), a.resolved_toolchain),
        None => (none, none, none),
    };
    seq![
        seq![
            ("monad_version"@, major_minor(x.version)),
            ("host"@, x.host),
            ("task_name"@, x.task.name),
            ("task_command"@, x.task.run),
        ],
        optional("container_image"@, x.image),
        optional("adapter"@, id),
        optional("toolchain"@, tool),
        optional("toolchain_resolved"@, found),
        env_extras(x.task.env, x.env),
        dep_extras(x.deps),
        task_dep_extras(x.task_deps),
    ]
}

proof fn lemma_extras_are_parts(x: KeyInputs)
    ensures
        x.extras() == in_turn(parts(x)),
{
    let p = parts(x);
    reveal_with_fuel(in_turn, 9);
    assert(p.drop_last() =~= p.take(7));
    assert(p.take(7).drop_last() =~= p.take(6));
    assert(p.take(6).drop_last() =~= p.take(5));
    assert(p.take(5).drop_last() =~= p.take(4));
    assert(p.take(4).drop_last() =~= p.take(3));
    assert(p.take(3).drop_last() =~= p.take(2));
    assert(p.take(2).drop_last() =~= p.take(1));
    assert(p.take(1).drop_last() =~= p.take(0));
    assert(in_turn(p) =~= p[0] + p[1] + p[2] + p[3] + p[4] + p[5] + p[6] + p[7]);
    assert(x.extras() =~= p[0] + p[1] + p[2] + p[3] + p[4] + p[5] + p[6] + p[7]);
}

proof fn lemma_part_is_picked(x: KeyInputs, k: int)
    requires
        0 <= k < 8,
    ensures
        picked(x.extras(), k) == parts(x)[k],
{
    let p = parts(x);
    lemma_extras_are_parts(x);
    lemma_parts(x);
    assert(all_of(p[0], 0));
    assert(all_of(p[1], 1));
    assert(all_of(p[2], 2));
    assert(all_of(p[3], 3));
    assert(all_of(p[4], 4));
    assert(all_of(p[5], 5));
    assert(all_of(p[6], 6));
    assert(all_of(p[7], 7));
    lemma_joined_picked(p, k);
}

/// Keys that are made of the same are made of the same parts.
proof fn lemma_same_parts(x: KeyInputs, y: KeyInputs, k: int)
    requires
        x.extras() == y.extras(),
        0 <= k < 8,
    ensures
        parts(x)[k] == parts(y)[k],
{
    lemma_part_is_picked(x, k);
    lemma_part_is_picked(y, k);
}

proof fn lemma_same_adapter(x: KeyInputs, y: KeyInputs)
    requires
        x.extras() == y.extras(),
    ensures
        same_adapter(x.adapter, y.adapter),
{
    lemma_same_parts(x, y, 2);
    lemma_same_parts(x, y, 3);
    lemma_same_parts(x, y, 4);
    match (x.adapter, y.adapter) {
        (Some(a), Some(b)) => {
            lemma_optional("adapter"@, Some(a.id), Some(b.id));
            lemma_optional("toolchain"@, toolchain_text(a), toolchain_text(b));
            lemma_optional("toolchain_resolved"@, a.resolved_toolchain, b.resolved_toolchain);
            if let (Some(v), Some(w)) = (a.required_toolchain, b.required_toolchain) {
                if !v.tool.contains(':') && !w.tool.contains(':') || v.tool == w.tool || v.version == w.version {
                    lemma_joined_by_colon(v.tool, v.version, w.tool, w.version);
                }
            }
        },
        (Some(a), None) => {
            lemma_optional("adapter"@, Some(a.id), None);
        },
        (None, Some(b)) => {
            lemma_optional("adapter"@, None, Some(b.id));
        },
        (None, None) => {},
    }
}

proof fn lemma_same_environment(x: KeyInputs, y: KeyInputs)
    requires
        x.extras() == y.extras(),
    ensures
        x.task.env == y.task.env,
        forall|i: int|
            0 <= i < x.task.env.len() ==> value_of(x.env, #[trigger] x.task.env[i]) == value_of(
                y.env,
                x.task.env[i],
            ),
{
    lemma_same_parts(x, y, 5);
    let (e, f) = (env_extras(x.task.env, x.env), env_extras(y.task.env, y.env));
    assert(e.len() == x.task.env.len() && f.len() == y.task.env.len());
    assert forall|i: int| 0 <= i < x.task.env.len() implies #[trigger] x.task.env[i] == y.task.env[i] && value_of(
        x.env,
        x.task.env[i],
    ) == value_of(y.env, x.task.env[i]) by {
        assert(e[i] == f[i]);
        assert(("env:"@ + x.task.env[i]).skip("env:"@.len() as int) =~= x.task.env[i]);
        assert(("env:"@ + y.task.env[i]).skip("env:"@.len() as int) =~= y.task.env[i]);
    }
    assert(x.task.env =~= y.task.env);
}

proof fn lemma_same_dependencies(x: KeyInputs, y: KeyInputs)
    requires
        x.extras() == y.extras(),
    ensures
        x.deps == y.deps,
        x.task_deps == y.task_deps,
{
    lemma_same_parts(x, y, 6);
    lemma_same_parts(x, y, 7);
    let (g, h) = (dep_extras(x.deps), dep_extras(y.deps));
    assert(g.len() == x.deps.len() && h.len() == y.deps.len());
    assert forall|i: int| 0 <= i < x.deps.len() implies #[trigger] x.deps[i] == y.deps[i] by {
        assert(g[i] == h[i]);
        assert(("dep:"@ + x.deps[i].0).skip("dep:"@.len() as int) =~= x.deps[i].0);
        assert(("dep:"@ + y.deps[i].0).skip("dep:"@.len() as int) =~= y.deps[i].0);
        crate::digest::law_hex_of(x.deps[i].1, y.deps[i].1);
    }
    assert(x.deps =~= y.deps);
    let (k, l) = (task_dep_extras(x.task_deps), task_dep_extras(y.task_deps));
    assert(k.len() == x.task_deps.len() && l.len() == y.task_deps.len());
    assert forall|i: int| 0 <= i < x.task_deps.len() implies #[trigger] x.task_deps[i] == y.task_deps[i] by {
        assert(k[i] == l[i]);
        assert(("task_dep:"@ + x.task_deps[i].0).skip("task_dep:"@.len() as int) =~= x.task_deps[i].0);
        assert(("task_dep:"@ + y.task_deps[i].0).skip("task_dep:"@.len() as int) =~= y.task_deps[i].0);
    }
    assert(x.task_deps =~= y.task_deps);
}

proof fn lemma_joined_by_colon(a: Seq<char>, b: Seq<char>, c: Seq<char>, d: Seq<char>)
    requires
        a + ":"@ + b == c + ":"@ + d,
        !a.contains(':') && !c.contains(':') || a == c || b == d,
    ensures
        a == c && b == d,
{
    reveal_strlit(":");
    let s = a + ":"@ + b;
    let t = c + ":"@ + d;
    assert(s.len() == a.len() + 1 + b.len() && t.len() == c.len() + 1 + d.len());
    assert(s[a.len() as int] == ':' && t[c.len() as int] == ':');
    if a.len() < c.len() {
        assert(t[a.len() as int] == c[a.len() as int]);
        assert(c.contains(':'));
    }
    if c.len() < a.len() {
        assert(s[c.len() as int] == a[c.len() as int]);
        assert(a.contains(':'));
    }
    assert(s.take(a.len() as int) =~= a && t.take(c.len() as int) =~= c);
    assert(s.skip(a.len() as int + 1) =~= b && t.skip(c.len() as int + 1) =~= d);
}

/// Whether two toolchains are one. A tool and its version go into a key as one text with a colon
/// between them, so two toolchains that differ in both can pass for one where a tool's own name holds
/// a colon.
pub open spec fn same_toolchain(a: Option<ToolVersionModel>, b: Option<ToolVersionModel>) -> bool {
    match (a, b) {
        (Some(v), Some(w)) => v == w || (v.tool != w.tool && v.version != w.version && (v.tool.contains(':')
            || w.tool.contains(':'))),
        (None, None) => true,
        _ => false,
    }
}

/// Whether a key cannot tell two adapters apart: there is none, or they have one id, one toolchain that
/// is asked for and one that was found.
pub open spec fn same_adapter(a: Option<AdapterFactsModel>, b: Option<AdapterFactsModel>) -> bool {
    match (a, b) {
        (Some(x), Some(y)) => x.id == y.id && same_toolchain(x.required_toolchain, y.required_toolchain)
            && x.resolved_toolchain == y.resolved_toolchain,
        (None, None) => true,
        _ => false,
    }
}

/// Two tasks that have one key agree in everything that a task's result depends on, whatever else is
/// different about them: version, host, name, command, image, adapter, toolchain, variables, the
/// signatures of the units and the keys of the tasks that they depend on, and files. The digest is
/// taken to tell the two messages apart.
pub proof fn law_one_key_means_one_task(x: KeyInputs, y: KeyInputs)
    requires
        x.fits(),
        y.fits(),
        keys_apart(x, y),
        x.key() == y.key(),
    ensures
        major_minor(x.version) == major_minor(y.version),
        x.host == y.host,
        x.task.name == y.task.name,
        x.task.run == y.task.run,
        x.image == y.image,
        same_adapter(x.adapter, y.adapter),
        x.task.env == y.task.env,
        forall|i: int|
            0 <= i < x.task.env.len() ==> value_of(x.env, #[trigger] x.task.env[i]) == value_of(
                y.env,
                x.task.env[i],
            ),
        x.deps == y.deps,
        x.task_deps == y.task_deps,
        x.files == y.files,
{
    law_keys_are_what_they_are_made_of(x, y);
    law_key_sees_the_command(
        (x.adapter, y.adapter),
        (x.task, y.task),
        (x.deps, y.deps),
        (x.image, y.image),
        (x.task_deps, y.task_deps),
        (x.env, y.env),
        (x.version, y.version),
        (x.host, y.host),
    );
    lemma_same_parts(x, y, 1);
    lemma_optional("container_image"@, x.image, y.image);
    lemma_same_adapter(x, y);
    lemma_same_environment(x, y);
    lemma_same_dependencies(x, y);
}

proof fn lemma_optional(label: Seq<char>, a: Option<Seq<char>>, b: Option<Seq<char>>)
    requires
        optional(label, a) == optional(label, b),
    ensures
        a == b,
{
    let (s, t) = (optional(label, a), optional(label, b));
    assert(s.len() == (if a is Some { 1nat } else { 0 }));
    assert(t.len() == (if b is Some { 1nat } else { 0 }));
    if let (Some(u), Some(v)) = (a, b) {
        assert(s[0].1 == u && t[0].1 == v);
    }
}

/// A key changes with the adapter: with its id, with the tool that it asks for or the version of it,
/// with the toolchain that was found, and where there is an adapter in place of none. The digest is
/// taken to tell the two messages apart.
pub proof fn law_the_adapter_changes_the_key(x: KeyInputs, y: KeyInputs)
    requires
        x.fits(),
        y.fits(),
        keys_apart(x, y),
    ensures
        x.adapter is Some != y.adapter is Some ==> x.key() != y.key(),
        x.adapter matches Some(a) ==> (y.adapter matches Some(b) ==> {
            &&& a.id != b.id ==> x.key() != y.key()
            &&& a.resolved_toolchain != b.resolved_toolchain ==> x.key() != y.key()
            &&& a.required_toolchain is Some != b.required_toolchain is Some ==> x.key() != y.key()
            &&& a.required_toolchain matches Some(v) ==> (b.required_toolchain matches Some(w) ==> {
                &&& v.tool == w.tool && v.version != w.version ==> x.key() != y.key()
                &&& v.tool != w.tool && v.version == w.version ==> x.key() != y.key()
                &&& v.tool != w.tool && !v.tool.contains(':') && !w.tool.contains(':') ==> x.key() != y.key()
            })
        }),
{
    if x.key() == y.key() {
        law_one_key_means_one_task(x, y);
    }
}

/// Two tasks that agree in all of that have one key: it depends on nothing else, such as on the unit's
/// name, on where the files lie, or on the variables that the task does not declare.
pub proof fn law_one_task_has_one_key(x: KeyInputs, y: KeyInputs)
    requires
        major_minor(x.version) == major_minor(y.version),
        x.host == y.host,
        x.task.name == y.task.name,
        x.task.run == y.task.run,
        x.image == y.image,
        match (x.adapter, y.adapter) {
            (Some(a), Some(b)) => a.id == b.id && a.required_toolchain == b.required_toolchain
                && a.resolved_toolchain == b.resolved_toolchain,
            (None, None) => true,
            _ => false,
        },
        x.task.env == y.task.env,
        forall|i: int|
            0 <= i < x.task.env.len() ==> value_of(x.env, #[trigger] x.task.env[i]) == value_of(
                y.env,
                x.task.env[i],
            ),
        x.deps == y.deps,
        x.task_deps == y.task_deps,
        x.files == y.files,
    ensures
        x.key() == y.key(),
{
    assert(env_extras(x.task.env, x.env) =~= env_extras(y.task.env, y.env));
}

/// A manifest lists its files in the order of their paths, where they are those that [`key_files`]
/// lists.
pub proof fn law_manifest_is_in_order(
    unit_name: Seq<char>,
    adapter: Option<AdapterFactsModel>,
    task: ResolvedTaskModel,
    version: Seq<char>,
    host: Seq<char>,
    paths: Seq<Seq<char>>,
    files: Seq<SourceFileModel>,
)
    requires
        files.map_values(|f: SourceFileModel| f.rel) == sort_by(paths, path_before()),
    ensures
        ({
            let listed = manifest_of(unit_name, adapter, task, version, host, files).files;
            forall|i: int, j: int|
                0 <= i < j < listed.len() ==> !path_less(#[trigger] listed[j].path, #[trigger] listed[i].path)
        }),
{
    let rels = files.map_values(|f: SourceFileModel| f.rel);
    let listed = manifest_of(unit_name, adapter, task, version, host, files).files;
    crate::pathset::lemma_path_orders();
    crate::sort::lemma_sort_by(paths, path_before());
    assert forall|i: int, j: int| 0 <= i < j < listed.len() implies !path_less(
        #[trigger] listed[j].path,
        #[trigger] listed[i].path,
    ) by {
        assert(listed[i].path == rels[i] && listed[j].path == rels[j]);
        assert(!path_before()(rels[j], rels[i]));
    }
}

/// The globs that choose a task's files are its inputs and the files that its adapter always looks at.
pub proof fn law_key_globs(t: ResolvedTaskModel, adapter: Option<AdapterFactsModel>, g: Seq<char>)
    ensures
        key_globs(t, adapter).contains(g) <==> t.inputs.contains(g) || (adapter matches Some(a)
            && a.fingerprint_files.contains(g)),
        derived_globs(adapter).contains(g) <==> (adapter matches Some(a) && a.derived_paths.contains(g)),
{
    if let Some(a) = adapter {
        crate::cascade::law_union_holds_both(t.inputs, a.fingerprint_files, g);
    }
}

/// A file goes into a task's key if and only if one of the task's inputs, or of the files that the
/// adapter always looks at, matches it, and nothing that the adapter derives does.
pub proof fn law_key_files(t: ResolvedTaskModel, adapter: Option<AdapterFactsModel>, paths: Seq<Seq<char>>, p: Seq<char>)
    ensures
        ({
            let chosen = sort_by(
                matching(paths, key_globs(t, adapter), derived_globs(adapter)),
                path_before(),
            );
            chosen.contains(p) <==> {
                &&& paths.contains(p)
                &&& (exists|g: Seq<char>|
                    (t.inputs.contains(g) || (adapter matches Some(a) && a.fingerprint_files.contains(g)))
                        && #[trigger] glob_matches(g, p))
                &&& !(exists|g: Seq<char>|
                    (adapter matches Some(a) && a.derived_paths.contains(g)) && #[trigger] glob_matches(g, p))
            }
        }),
{
    let globs = key_globs(t, adapter);
    let derived = derived_globs(adapter);
    crate::globs::law_what_matches_is_selected(paths, globs, derived, p);
    assert forall|g: Seq<char>| true implies (globs.contains(g) <==> t.inputs.contains(g) || (adapter matches Some(
        a,
    ) && a.fingerprint_files.contains(g))) && (#[trigger] derived.contains(g) <==> (adapter matches Some(a)
        && a.derived_paths.contains(g))) by {
        law_key_globs(t, adapter, g);
    }
    lemma_some_glob(globs, p);
    lemma_some_glob(derived, p);
    if exists|g: Seq<char>|
        (t.inputs.contains(g) || (adapter matches Some(a) && a.fingerprint_files.contains(g))) && #[trigger]
            glob_matches(g, p) {
        let g = choose|g: Seq<char>|
            (t.inputs.contains(g) || (adapter matches Some(a) && a.fingerprint_files.contains(g))) && #[trigger]
                glob_matches(g, p);
        law_key_globs(t, adapter, g);
        assert(globs.contains(g));
    }
    if crate::globs::any_matches(globs, p) {
        let g = choose|g: Seq<char>| globs.contains(g) && #[trigger] glob_matches(g, p);
        law_key_globs(t, adapter, g);
    }
    if exists|g: Seq<char>| (adapter matches Some(a) && a.derived_paths.contains(g)) && #[trigger] glob_matches(g, p) {
        let g = choose|g: Seq<char>|
            (adapter matches Some(a) && a.derived_paths.contains(g)) && #[trigger] glob_matches(g, p);
        law_key_globs(t, adapter, g);
        assert(derived.contains(g));
    }
    if crate::globs::any_matches(derived, p) {
        let g = choose|g: Seq<char>| derived.contains(g) && #[trigger] glob_matches(g, p);
        law_key_globs(t, adapter, g);
    }
}

proof fn lemma_some_glob(globs: Seq<Seq<char>>, p: Seq<char>)
    ensures
        crate::globs::any_matches(globs, p) <==> exists|g: Seq<char>|
            globs.contains(g) && #[trigger] glob_matches(g, p),
{
    if crate::globs::any_matches(globs, p) {
        let i = choose|i: int| 0 <= i < globs.len() && glob_matches(#[trigger] globs[i], p);
        assert(globs.contains(globs[i]));
    }
    if exists|g: Seq<char>| globs.contains(g) && #[trigger] glob_matches(g, p) {
        let g = choose|g: Seq<char>| globs.contains(g) && #[trigger] glob_matches(g, p);
        let i = choose|i: int| 0 <= i < globs.len() && globs[i] == g;
        assert(glob_matches(globs[i], p));
    }
}

/// A key takes in the key of each task that the task depends on and whose key is known, and no other.
pub proof fn law_known_keys(deps: Seq<Seq<char>>, keys: Map<Seq<char>, Seq<char>>, d: Seq<char>, k: Seq<char>)
    ensures
        known_keys(deps, keys).contains((d, k)) <==> deps.contains(d) && keys.contains_key(d) && keys[d] == k,
    decreases deps.len(),
{
    if deps.len() > 0 {
        let rest = deps.drop_last();
        law_known_keys(rest, keys, d, k);
        crate::deep::lemma_last_contains(deps, d);
        crate::deep::lemma_push_contains(known_keys(rest, keys), (deps.last(), keys[deps.last()]), (d, k));
    }
}

/// Where all keys are known, they stand in the order in which the task names its dependencies.
pub proof fn law_known_keys_in_order(deps: Seq<Seq<char>>, keys: Map<Seq<char>, Seq<char>>)
    requires
        forall|i: int| 0 <= i < deps.len() ==> keys.contains_key(#[trigger] deps[i]),
    ensures
        known_keys(deps, keys).len() == deps.len(),
        forall|i: int| 0 <= i < deps.len() ==> #[trigger] known_keys(deps, keys)[i] == (deps[i], keys[deps[i]]),
    decreases deps.len(),
{
    if deps.len() > 0 {
        let rest = deps.drop_last();
        assert forall|i: int| 0 <= i < rest.len() implies keys.contains_key(#[trigger] rest[i]) by {
            assert(rest[i] == deps[i]);
        }
        law_known_keys_in_order(rest, keys);
        assert(keys.contains_key(deps[deps.len() - 1]));
        assert forall|i: int| 0 <= i < deps.len() implies #[trigger] known_keys(deps, keys)[i] == (
            deps[i],
            keys[deps[i]],
        ) by {
            if i < rest.len() {
                assert(known_keys(rest, keys)[i] == (rest[i], keys[rest[i]]));
            }
        }
    }
}

/// The key of a task that ran before is known under its name; of tasks with one name, that of the last.
/// Nothing else is known.
pub proof fn law_keys_by_task(tasks: Seq<ResolvedTaskModel>, keys: Seq<Seq<char>>, n: Seq<char>)
    requires
        keys.len() <= tasks.len(),
    ensures
        keys_by_task(tasks, keys).contains_key(n) <==> exists|i: int|
            0 <= i < keys.len() && (#[trigger] tasks[i]).name == n,
        forall|i: int|
            0 <= i < keys.len() && (#[trigger] tasks[i]).name == n && (forall|j: int|
                i < j < keys.len() ==> (#[trigger] tasks[j]).name != n) ==> keys_by_task(tasks, keys)[n] == keys[i],
    decreases keys.len(),
{
    if keys.len() > 0 {
        let rest = keys.drop_last();
        let last = keys.len() - 1;
        law_keys_by_task(tasks, rest, n);
        assert(tasks[last].name == n || tasks[last].name != n);
        assert forall|i: int|
            0 <= i < keys.len() && (#[trigger] tasks[i]).name == n && (forall|j: int|
                i < j < keys.len() ==> (#[trigger] tasks[j]).name != n) implies keys_by_task(tasks, keys)[n]
            == keys[i] by {
            if i < last {
                assert(tasks[last].name != n);
                assert(rest[i] == keys[i]);
            }
        }
    }
}

/// Of a version that has two numbers or more, the first two go into a key, whatever follows them.
pub proof fn law_version_up_to_minor(major: Seq<char>, minor: Seq<char>, rest: Seq<char>)
    requires
        !major.contains('.'),
        !minor.contains('.'),
    ensures
        major_minor(major + "."@ + minor) == major + "."@ + minor,
        major_minor(major + "."@ + minor + "."@ + rest) == major + "."@ + minor,
{
    reveal_strlit(".");
    let a = major + "."@ + minor;
    let b = a + "."@ + rest;
    let n = major.len() as int;
    lemma_find_is(a, '.', n);
    lemma_find_is(b, '.', n);
    assert(a.take(n) =~= major && b.take(n) =~= major);
    assert(a.skip(n + 1) =~= minor);
    assert(b.skip(n + 1) =~= minor + "."@ + rest);
    let m = minor.len() as int;
    lemma_find_is(minor, '.', m);
    lemma_find_is(minor + "."@ + rest, '.', m);
    assert((minor + "."@ + rest).take(m) =~= minor);
    assert(split_on(minor, '.') == seq![minor]);
    assert(split_on(a, '.') == seq![a.take(n)] + split_on(a.skip(n + 1), '.'));
    assert(split_on(a, '.') =~= seq![major, minor]);
    assert(split_on(b, '.') == seq![b.take(n)] + split_on(b.skip(n + 1), '.'));
    assert(split_on(minor + "."@ + rest, '.') == seq![(minor + "."@ + rest).take(m)] + split_on(
        (minor + "."@ + rest).skip(m + 1),
        '.',
    ));
    let tail = split_on((minor + "."@ + rest).skip(m + 1), '.');
    assert(split_on(b, '.') =~= seq![major] + (seq![minor] + tail));
    assert(split_on(b, '.').len() >= 2);
    assert(split_on(b, '.').take(2) =~= seq![major, minor]) by {
        assert(split_on(b, '.')[0] == major);
        assert(split_on(b, '.')[1] == minor);
    }
    assert(split_on(b, '.').len() == 2 ==> split_on(b, '.') =~= split_on(b, '.').take(2));
    let two = seq![major, minor];
    assert(two.drop_last() =~= seq![major]);
    assert(joined(two, "."@) == joined(seq![major], "."@) + "."@ + minor);
}

} // verus!
