//! The module registry.
//!
//! A module is a native library in the plugin directory. Probing it means
//! calling its entry point twice: once with empty arguments, for the trigger
//! patterns it answers to, and once with the command `help`, for the commands
//! it advertises. The host opens the library and makes the calls; this module
//! decides which files are probed, reads the answers, and keeps the records.
//!
//! The active list holds at most one record per path. A record that is
//! superseded, by a rescan or by a newer record of the same path, is retired
//! to the grave.

use vstd::prelude::*;
use crate::marshal::{decode_output, encoded, lines, Invocation};
use crate::text::{chars_of, same_text, texts};
use vstd::utf8::{decode_utf8, valid_utf8};

verus! {

/// One probed module.
#[derive(Debug, PartialEq, Eq)]
pub struct Plugin {
    /// The path of the library.
    pub name: String,
    /// The commands it advertises.
    pub commands: Vec<String>,
    /// The patterns of the command names it handles.
    pub triggers: Vec<String>,
}

/// A `Plugin` as plain text.
pub ghost struct PluginView {
    pub name: Seq<char>,
    pub commands: Seq<Seq<char>>,
    pub triggers: Seq<Seq<char>>,
}

impl View for Plugin {
    type V = PluginView;

    open spec fn view(&self) -> PluginView {
        PluginView {
            name: self.name@,
            commands: texts(self.commands@),
            triggers: texts(self.triggers@),
        }
    }
}

/// The records of a list of modules.
pub open spec fn records(list: Seq<Plugin>) -> Seq<PluginView> {
    Seq::new(list.len(), |i: int| list[i]@)
}

/// What the host got from probing one file.
#[derive(Debug, PartialEq, Eq)]
pub enum ProbeOutcome {
    /// The library could not be opened, or its entry point could not be
    /// resolved or called.
    Failed,
    /// The buffers that the two calls returned, without their terminators.
    Answered { triggers: Vec<u8>, commands: Vec<u8> },
}

/// One file of the plugin directory, after the host probed it.
#[derive(Debug, PartialEq, Eq)]
pub struct Candidate {
    pub path: String,
    pub outcome: ProbeOutcome,
}

/// The part of `path` after its last `/`.
pub open spec fn file_name(path: Seq<char>) -> Seq<char>
    decreases path.len(),
{
    if path.len() == 0 {
        path
    } else if path.last() == '/' {
        Seq::empty()
    } else {
        file_name(path.drop_last()).push(path.last())
    }
}

/// Whether `name` is a non-empty stem, a dot and `ext`.
pub open spec fn has_extension(name: Seq<char>, ext: Seq<char>) -> bool {
    &&& name.len() > ext.len() + 1
    &&& name[name.len() - ext.len() - 1] == '.'
    &&& name.skip(name.len() - ext.len()) == ext
}

/// Whether `path` names a native library: a file whose extension is `so`,
/// `dll` or `dylib`.
pub open spec fn is_library(path: Seq<char>) -> bool {
    let name = file_name(path);
    ||| has_extension(name, seq!['s', 'o'])
    ||| has_extension(name, seq!['d', 'l', 'l'])
    ||| has_extension(name, seq!['d', 'y', 'l', 'i', 'b'])
}

/// The record that `path` and the two answers make, if both answers are text.
pub open spec fn probed(path: Seq<char>, triggers: Seq<u8>, commands: Seq<u8>) -> Option<
    PluginView,
> {
    if valid_utf8(triggers) && valid_utf8(commands) {
        Some(
            PluginView {
                name: path,
                commands: lines(decode_utf8(commands)),
                triggers: lines(decode_utf8(triggers)),
            },
        )
    } else {
        None
    }
}

/// The record that a candidate yields, if any.
pub open spec fn record_of(c: Candidate) -> Option<PluginView> {
    match c.outcome {
        ProbeOutcome::Failed => None,
        ProbeOutcome::Answered { triggers, commands } => if is_library(c.path@) {
            probed(c.path@, triggers@, commands@)
        } else {
            None
        },
    }
}

/// `list` without the records of the path `name`.
pub open spec fn without(list: Seq<PluginView>, name: Seq<char>) -> Seq<PluginView>
    decreases list.len(),
{
    if list.len() == 0 {
        list
    } else if list.last().name == name {
        without(list.drop_last(), name)
    } else {
        without(list.drop_last(), name).push(list.last())
    }
}

/// The records of `list` that have the path `name`.
pub open spec fn named(list: Seq<PluginView>, name: Seq<char>) -> Seq<PluginView>
    decreases list.len(),
{
    if list.len() == 0 {
        list
    } else if list.last().name == name {
        named(list.drop_last(), name).push(list.last())
    } else {
        named(list.drop_last(), name)
    }
}

/// `list` with `record` appended, in place of any record of the same path.
pub open spec fn inserted(list: Seq<PluginView>, record: PluginView) -> Seq<PluginView> {
    without(list, record.name).push(record)
}

/// The list that a scan yields: the record of each candidate that has one, in
/// scan order, a later record of a path replacing an earlier one.
pub open spec fn loaded(scan: Seq<Candidate>) -> Seq<PluginView>
    decreases scan.len(),
{
    if scan.len() == 0 {
        Seq::empty()
    } else {
        match record_of(scan.last()) {
            Some(r) => inserted(loaded(scan.drop_last()), r),
            None => loaded(scan.drop_last()),
        }
    }
}

/// Whether some record of `list` has the path `name`.
pub open spec fn has_path(list: Seq<PluginView>, name: Seq<char>) -> bool {
    exists|i: int| 0 <= i < list.len() && (#[trigger] list[i]).name == name
}

/// Whether no two records of `list` share a path.
pub open spec fn distinct_paths(list: Seq<PluginView>) -> bool {
    forall|i: int, j: int|
        0 <= i < j < list.len() ==> (#[trigger] list[i]).name != (#[trigger] list[j]).name
}

/// A path found in `without(list, name)` is found in `list`, and is not `name`.
proof fn lemma_without_paths(list: Seq<PluginView>, name: Seq<char>, n: Seq<char>)
    requires
        has_path(without(list, name), n),
    ensures
        has_path(list, n),
        n != name,
    decreases list.len(),
{
    let out = without(list, name);
    let i = choose|i: int| 0 <= i < out.len() && (#[trigger] out[i]).name == n;
    if list.len() > 0 {
        let init = list.drop_last();
        let kept = without(init, name);
        if i < kept.len() {
            assert(kept[i].name == n);
            lemma_without_paths(init, name, n);
            let k = choose|k: int| 0 <= k < init.len() && (#[trigger] init[k]).name == n;
            assert(list[k].name == n);
        } else {
            assert(list[list.len() - 1].name == n);
        }
    }
}

/// `without` keeps paths distinct.
proof fn lemma_without_distinct(list: Seq<PluginView>, name: Seq<char>)
    requires
        distinct_paths(list),
    ensures
        distinct_paths(without(list, name)),
    decreases list.len(),
{
    let out = without(list, name);
    if list.len() > 0 {
        let init = list.drop_last();
        let kept = without(init, name);
        assert forall|i: int, j: int| 0 <= i < j < init.len() implies (#[trigger] init[i]).name != (
        #[trigger] init[j]).name by {
            assert(init[i] == list[i] && init[j] == list[j]);
        }
        lemma_without_distinct(init, name);
        assert forall|i: int, j: int| 0 <= i < j < out.len() implies (#[trigger] out[i]).name != (
        #[trigger] out[j]).name by {
            if j < kept.len() {
                assert(out[i] == kept[i] && out[j] == kept[j]);
            } else {
                assert(out[i] == kept[i]);
                assert(has_path(kept, kept[i].name));
                lemma_without_paths(init, name, kept[i].name);
                let k = choose|k: int|
                    0 <= k < init.len() && (#[trigger] init[k]).name == kept[i].name;
                assert(list[k].name == kept[i].name);
                assert(out[j] == list[list.len() - 1]);
            }
        }
    }
}

/// Where no record has the path, `without` changes nothing.
proof fn lemma_without_absent(list: Seq<PluginView>, name: Seq<char>)
    requires
        !has_path(list, name),
    ensures
        without(list, name) == list,
    decreases list.len(),
{
    if list.len() > 0 {
        let init = list.drop_last();
        assert(list[list.len() - 1].name != name);
        if has_path(init, name) {
            let k = choose|k: int| 0 <= k < init.len() && (#[trigger] init[k]).name == name;
            assert(list[k].name == name);
        }
        lemma_without_absent(init, name);
        assert(without(init, name).push(list.last()) == list);
    }
}

/// Inserting keeps paths distinct.
proof fn lemma_inserted_distinct(list: Seq<PluginView>, record: PluginView)
    requires
        distinct_paths(list),
    ensures
        distinct_paths(inserted(list, record)),
{
    lemma_without_distinct(list, record.name);
    let kept = without(list, record.name);
    let out = inserted(list, record);
    assert forall|i: int, j: int| 0 <= i < j < out.len() implies (#[trigger] out[i]).name != (
    #[trigger] out[j]).name by {
        if j < kept.len() {
            assert(out[i] == kept[i] && out[j] == kept[j]);
        } else {
            assert(out[i] == kept[i]);
            assert(has_path(kept, kept[i].name));
            lemma_without_paths(list, record.name, kept[i].name);
        }
    }
}

/// What a scan yields has distinct paths.
proof fn lemma_loaded_distinct(scan: Seq<Candidate>)
    ensures
        distinct_paths(loaded(scan)),
    decreases scan.len(),
{
    if scan.len() > 0 {
        lemma_loaded_distinct(scan.drop_last());
        match record_of(scan.last()) {
            Some(r) => lemma_inserted_distinct(loaded(scan.drop_last()), r),
            None => {},
        }
    }
}

/// A copy of `list`.
pub fn clone_strings(list: &Vec<String>) -> (out: Vec<String>)
    ensures
        texts(out@) == texts(list@),
{
    let mut out: Vec<String> = Vec::new();
    let mut i: usize = 0;
    while i < list.len()
        invariant
            i <= list.len(),
            texts(out@) == texts(list@).take(i as int),
        decreases list.len() - i,
    {
        let ghost before = texts(out@);
        out.push(list[i].clone());
        assert(texts(out@) == before.push(out@.last()@));
        assert(texts(list@).take(i + 1) == texts(list@).take(i as int).push(list@[i as int]@));
        i += 1;
    }
    assert(texts(list@).take(list.len() as int) == texts(list@));
    out
}

/// Whether `chars[from..]` is a non-empty stem, a dot and `ext`.
fn ends_with_extension(chars: &Vec<char>, from: usize, ext: &Vec<char>) -> (b: bool)
    requires
        from <= chars.len(),
    ensures
        b == has_extension(chars@.skip(from as int), ext@),
{
    let n = chars.len() - from;
    if ext.len() >= n || n - ext.len() < 2 {
        return false;
    }
    let ghost name = chars@.skip(from as int);
    let start = chars.len() - ext.len();
    if chars[start - 1] != '.' {
        return false;
    }
    let mut i: usize = 0;
    while i < ext.len()
        invariant
            i <= ext.len(),
            start + ext.len() == chars.len(),
            from <= start,
            name == chars@.skip(from as int),
            forall|k: int| 0 <= k < i ==> chars@[start + k] == ext@[k],
        decreases ext.len() - i,
    {
        if chars[start + i] != ext[i] {
            assert(name.skip(name.len() - ext.len())[i as int] != ext@[i as int]);
            return false;
        }
        i += 1;
    }
    assert(name.skip(name.len() - ext.len()) == ext@);
    true
}

/// The file name of a path starts after its last `/`.
proof fn lemma_file_name(path: Seq<char>, from: int)
    requires
        0 <= from <= path.len(),
        from == 0 || path[from - 1] == '/',
        forall|i: int| from <= i < path.len() ==> #[trigger] path[i] != '/',
    ensures
        file_name(path) == path.skip(from),
    decreases path.len() - from,
{
    if from == path.len() {
        assert(path.skip(from) == Seq::<char>::empty());
    } else {
        let init = path.drop_last();
        assert(path.last() != '/');
        lemma_file_name(init, from);
        assert(init.skip(from).push(path.last()) == path.skip(from));
    }
}

/// Whether `path` names a native library, and so is worth probing.
pub fn is_plugin_file(path: &str) -> (b: bool)
    ensures
        b == is_library(path@),
{
    let chars = chars_of(path);
    let mut from: usize = chars.len();
    while from > 0 && chars[from - 1] != '/'
        invariant
            from <= chars.len(),
            forall|i: int| from <= i < chars.len() ==> #[trigger] chars@[i] != '/',
        decreases from,
    {
        from -= 1;
    }
    proof {
        lemma_file_name(chars@, from as int);
    }
    let so: Vec<char> = vec!['s', 'o'];
    let dll: Vec<char> = vec!['d', 'l', 'l'];
    let dylib: Vec<char> = vec!['d', 'y', 'l', 'i', 'b'];
    assert(so@ == seq!['s', 'o']);
    assert(dll@ == seq!['d', 'l', 'l']);
    assert(dylib@ == seq!['d', 'y', 'l', 'i', 'b']);
    ends_with_extension(&chars, from, &so) || ends_with_extension(&chars, from, &dll)
        || ends_with_extension(&chars, from, &dylib)
}

impl Clone for Plugin {
    fn clone(&self) -> (out: Plugin)
        ensures
            out@ == self@,
    {
        Plugin {
            name: self.name.clone(),
            commands: clone_strings(&self.commands),
            triggers: clone_strings(&self.triggers),
        }
    }
}

impl Plugin {
    /// Reads the two answers of a probe into the record of `path`.
    pub fn probe(path: &str, triggers: &Vec<u8>, commands: &Vec<u8>) -> (r: Option<Plugin>)
        ensures
            r is Some <==> probed(path@, triggers@, commands@) is Some,
            r matches Some(p) ==> Some(p@) == probed(path@, triggers@, commands@),
    {
        let triggers = match decode_output(triggers) {
            Ok(list) => list,
            Err(_) => {
                return None;
            },
        };
        let commands = match decode_output(commands) {
            Ok(list) => list,
            Err(_) => {
                return None;
            },
        };
        Some(Plugin { name: path.to_owned(), commands, triggers })
    }

    /// The record that a candidate yields, if any: of a file that is a native
    /// library, that answered both calls, and whose answers are text.
    pub fn from_candidate(candidate: &Candidate) -> (r: Option<Plugin>)
        ensures
            r is Some <==> record_of(*candidate) is Some,
            r matches Some(p) ==> Some(p@) == record_of(*candidate),
    {
        match &candidate.outcome {
            ProbeOutcome::Failed => None,
            ProbeOutcome::Answered { triggers, commands } => {
                if is_plugin_file(candidate.path.as_str()) {
                    Plugin::probe(candidate.path.as_str(), triggers, commands)
                } else {
                    None
                }
            },
        }
    }

    /// Builds the module list of one scan of the plugin directory. A file
    /// that yields no record is skipped; it never fails the scan.
    pub fn load(scan: &Vec<Candidate>) -> (out: Vec<Plugin>)
        ensures
            records(out@) == loaded(scan@),
            distinct_paths(records(out@)),
    {
        let mut out: Vec<Plugin> = Vec::new();
        let mut i: usize = 0;
        assert(scan@.take(0) == Seq::<Candidate>::empty());
        while i < scan.len()
            invariant
                i <= scan.len(),
                records(out@) == loaded(scan@.take(i as int)),
            decreases scan.len() - i,
        {
            proof {
                let next = scan@.take(i + 1);
                assert(next.drop_last() == scan@.take(i as int));
                assert(next.last() == scan@[i as int]);
            }
            match Plugin::from_candidate(&scan[i]) {
                Some(p) => {
                    let (kept, _retired) = split_by_path(out, p.name.as_str());
                    out = kept;
                    let ghost before = records(out@);
                    out.push(p);
                    assert(records(out@) == before.push(out@.last()@));
                },
                None => {},
            }
            i += 1;
        }
        proof {
            assert(scan@.take(scan.len() as int) == scan@);
            lemma_loaded_distinct(scan@);
        }
        out
    }
}

/// Splits `list` into the modules of another path than `name`, and those of
/// the path `name`, each in order.
pub fn split_by_path(list: Vec<Plugin>, name: &str) -> (r: (Vec<Plugin>, Vec<Plugin>))
    ensures
        records(r.0@) == without(records(list@), name@),
        records(r.1@) == named(records(list@), name@),
{
    let mut kept: Vec<Plugin> = Vec::new();
    let mut retired: Vec<Plugin> = Vec::new();
    let ghost all = records(list@);
    assert(all.take(0) == Seq::<PluginView>::empty());
    for p in it: list
        invariant
            it.seq().len() == all.len(),
            forall|k: int| 0 <= k < all.len() ==> (#[trigger] it.seq()[k])@ == all[k],
            records(kept@) == without(all.take(it.index()), name@),
            records(retired@) == named(all.take(it.index()), name@),
    {
        proof {
            let next = all.take(it.index() + 1);
            assert(next.drop_last() == all.take(it.index()));
            assert(next.last() == p@);
        }
        if same_text(p.name.as_str(), name) {
            let ghost before = records(retired@);
            retired.push(p);
            assert(records(retired@) == before.push(retired@.last()@));
        } else {
            let ghost before = records(kept@);
            kept.push(p);
            assert(records(kept@) == before.push(kept@.last()@));
        }
    }
    assert(all.take(all.len() as int) == all);
    (kept, retired)
}

/// The call that asks a module for its trigger patterns: all arguments
/// empty.
pub fn trigger_query() -> (call: Invocation)
    ensures
        call.command@ == encoded(Seq::empty()),
        call.parameter@ == encoded(Seq::empty()),
        call.author@ == encoded(Seq::empty()),
{
    assert(encoded(Seq::empty()) == seq![0u8]);
    Invocation { command: vec![0u8], parameter: vec![0u8], author: vec![0u8] }
}

/// The call that asks a module for the commands it advertises: the command
/// `help`, the other arguments empty.
pub fn command_query() -> (call: Invocation)
    ensures
        call.command@ == encoded("help"@),
        call.parameter@ == encoded(Seq::empty()),
        call.author@ == encoded(Seq::empty()),
{
    proof {
        reveal_strlit("help");
        vstd::utf8::is_ascii_chars_encode_utf8("help"@);
        assert(encoded("help"@) == seq![104u8, 101u8, 108u8, 112u8, 0u8]);
        assert(encoded(Seq::empty()) == seq![0u8]);
    }
    Invocation {
        command: vec![104u8, 101u8, 108u8, 112u8, 0u8],
        parameter: vec![0u8],
        author: vec![0u8],
    }
}

/// The active list: the modules that dispatch consults.
pub struct Registry {
    active: Vec<Plugin>,
}

impl View for Registry {
    type V = Seq<PluginView>;

    closed spec fn view(&self) -> Seq<PluginView> {
        records(self.active@)
    }
}

impl Registry {
    #[verifier::type_invariant]
    spec fn distinct(&self) -> bool {
        distinct_paths(records(self.active@))
    }

    /// A registry without modules.
    pub fn new() -> (out: Registry)
        ensures
            out@ == Seq::<PluginView>::empty(),
    {
        Registry { active: Vec::new() }
    }

    /// A copy of the active list, to work on while the list itself is free to
    /// change.
    pub fn snapshot(&self) -> (out: Vec<Plugin>)
        ensures
            records(out@) == self@,
            distinct_paths(self@),
    {
        proof {
            use_type_invariant(self);
        }
        let mut out: Vec<Plugin> = Vec::new();
        let mut i: usize = 0;
        while i < self.active.len()
            invariant
                i <= self.active.len(),
                records(out@) == records(self.active@).take(i as int),
            decreases self.active.len() - i,
        {
            let ghost before = records(out@);
            out.push(self.active[i].clone());
            assert(records(out@) == before.push(out@.last()@));
            assert(records(self.active@).take(i + 1) == records(self.active@).take(
                i as int,
            ).push(self.active@[i as int]@));
            i += 1;
        }
        assert(records(self.active@).take(self.active.len() as int) == records(self.active@));
        out
    }

    /// Puts the list of a fresh scan in place of the active list, which is
    /// returned.
    pub fn replace(&mut self, scan: &Vec<Candidate>) -> (superseded: Vec<Plugin>)
        ensures
            final(self)@ == loaded(scan@),
            records(superseded@) == old(self)@,
            distinct_paths(final(self)@),
    {
        let mut fresh = Plugin::load(scan);
        std::mem::swap(&mut self.active, &mut fresh);
        fresh
    }

    /// Appends `record`, and returns the records of the same path that it
    /// takes the place of.
    pub fn insert(&mut self, record: Plugin) -> (superseded: Vec<Plugin>)
        ensures
            final(self)@ == inserted(old(self)@, record@),
            records(superseded@) == named(old(self)@, record@.name),
            distinct_paths(final(self)@),
    {
        proof {
            use_type_invariant(&*self);
            lemma_inserted_distinct(self@, record@);
        }
        let mut list: Vec<Plugin> = Vec::new();
        std::mem::swap(&mut self.active, &mut list);
        let (mut kept, retired) = split_by_path(list, record.name.as_str());
        let ghost before = records(kept@);
        kept.push(record);
        assert(records(kept@) == before.push(kept@.last()@));
        self.active = kept;
        retired
    }
}

/// The retired records. Nothing reads it on the way of a message.
pub struct Grave {
    retired: Vec<Plugin>,
}

impl View for Grave {
    type V = Seq<PluginView>;

    closed spec fn view(&self) -> Seq<PluginView> {
        records(self.retired@)
    }
}

impl Grave {
    /// An empty grave.
    pub fn new() -> (out: Grave)
        ensures
            out@ == Seq::<PluginView>::empty(),
    {
        Grave { retired: Vec::new() }
    }

    /// The number of retired records.
    pub fn len(&self) -> (n: usize)
        ensures
            n == self@.len(),
    {
        self.retired.len()
    }

    /// Appends `list` to the retired records.
    pub fn bury(&mut self, list: Vec<Plugin>)
        ensures
            final(self)@ == old(self)@ + records(list@),
    {
        let mut list = list;
        self.retired.append(&mut list);
    }
}

/// The active list after a rescan: what the scan yields, or the list as it
/// was where the directory could not be read.
pub open spec fn reloaded(active: Seq<PluginView>, scan: Option<Seq<Candidate>>) -> Seq<
    PluginView,
> {
    match scan {
        Some(s) => loaded(s),
        None => active,
    }
}

impl Registry {
    /// Rescans. `scan` holds the files of the plugin directory, each probed,
    /// or nothing where the directory could not be read; the registry is
    /// then left as it was. Otherwise the list that the scan yields becomes
    /// the active list and the superseded list goes to `grave`. Returns
    /// whether the list was replaced.
    pub fn reload(&mut self, grave: &mut Grave, scan: Option<&Vec<Candidate>>) -> (done: bool)
        ensures
            done == scan is Some,
            final(self)@ == reloaded(
                old(self)@,
                match scan {
                    Some(s) => Some(s@),
                    None => None,
                },
            ),
            final(grave)@ == if scan is Some {
                old(grave)@ + old(self)@
            } else {
                old(grave)@
            },
            distinct_paths(final(self)@),
    {
        match scan {
            Some(s) => {
                let superseded = self.replace(s);
                grave.bury(superseded);
                true
            },
            None => {
                proof {
                    use_type_invariant(&*self);
                }
                false
            },
        }
    }

    /// Adds the module of one probed file, without rescanning anything else.
    /// A candidate that yields no record changes nothing. Otherwise its
    /// record is appended to the active list, and the records of the same
    /// path that it replaces go to `grave`. Returns whether a record was
    /// added.
    pub fn add(&mut self, grave: &mut Grave, candidate: &Candidate) -> (added: bool)
        ensures
            added == record_of(*candidate) is Some,
            match record_of(*candidate) {
                Some(r) => {
                    &&& final(self)@ == inserted(old(self)@, r)
                    &&& final(grave)@ == old(grave)@ + named(old(self)@, r.name)
                },
                None => final(self)@ == old(self)@ && final(grave)@ == old(grave)@,
            },
            distinct_paths(final(self)@),
    {
        match Plugin::from_candidate(candidate) {
            Some(p) => {
                let superseded = self.insert(p);
                grave.bury(superseded);
                true
            },
            None => {
                proof {
                    use_type_invariant(&*self);
                }
                false
            },
        }
    }
}

/// Adding the record of a path that the list does not hold appends it, and
/// retires nothing.
pub proof fn lemma_add_appends(list: Seq<PluginView>, record: PluginView)
    requires
        !has_path(list, record.name),
    ensures
        inserted(list, record) == list.push(record),
        named(list, record.name) == Seq::<PluginView>::empty(),
{
    lemma_without_absent(list, record.name);
    lemma_named_absent(list, record.name);
}

/// Where no record has the path, `named` finds none.
proof fn lemma_named_absent(list: Seq<PluginView>, name: Seq<char>)
    requires
        !has_path(list, name),
    ensures
        named(list, name) == Seq::<PluginView>::empty(),
    decreases list.len(),
{
    if list.len() > 0 {
        let init = list.drop_last();
        assert(list[list.len() - 1].name != name);
        if has_path(init, name) {
            let k = choose|k: int| 0 <= k < init.len() && (#[trigger] init[k]).name == name;
            assert(list[k].name == name);
        }
        lemma_named_absent(init, name);
    }
}

/// Rescanning twice over an unchanged directory changes nothing the second
/// time: the active list after a rescan depends on the scan alone, so a
/// second rescan with the same scan leaves the same records, in the same
/// order.
pub proof fn lemma_reload_idempotent(active: Seq<PluginView>, scan: Option<Seq<Candidate>>)
    ensures
        reloaded(reloaded(active, scan), scan) == reloaded(active, scan),
        reloaded(reloaded(active, scan), scan).to_set() == reloaded(active, scan).to_set(),
{
}

/// A module whose file yields no record in a scan is absent after the
/// rescan, whatever the active list held before.
pub proof fn lemma_reload_drops(scan: Seq<Candidate>, path: Seq<char>)
    requires
        forall|i: int|
            0 <= i < scan.len() ==> (record_of(#[trigger] scan[i]) matches Some(r) ==> r.name
                != path),
    ensures
        !has_path(loaded(scan), path),
    decreases scan.len(),
{
    if scan.len() > 0 {
        let init = scan.drop_last();
        assert forall|i: int| 0 <= i < init.len() implies (record_of(#[trigger] init[i]) matches Some(
            r,
        ) ==> r.name != path) by {
            assert(init[i] == scan[i]);
        }
        lemma_reload_drops(init, path);
        let out = loaded(scan);
        if has_path(out, path) {
            let i = choose|i: int| 0 <= i < out.len() && (#[trigger] out[i]).name == path;
            match record_of(scan.last()) {
                Some(r) => {
                    let kept = without(loaded(init), r.name);
                    assert(scan[scan.len() - 1] == scan.last());
                    if i < kept.len() {
                        assert(kept[i].name == path);
                        lemma_without_paths(loaded(init), r.name, path);
                    }
                },
                None => {},
            }
        }
    }
}

/// What happened to a file of the watched directory.
#[derive(Clone, Copy, Debug, PartialEq, Eq, Structural)]
pub enum FsEventKind {
    Create,
    Modify,
    Remove,
    /// Anything else: an access, or an event of unknown kind.
    Other,
}

/// One change notification.
#[derive(Debug, PartialEq, Eq)]
pub struct FsEvent {
    pub kind: FsEventKind,
    pub paths: Vec<String>,
}

/// What the watcher does about a notification.
#[derive(Debug, PartialEq, Eq)]
pub enum WatchAction {
    /// Nothing.
    Ignore,
    /// Rescan the whole directory.
    Reload,
    /// Probe these files and add each.
    Add(Vec<String>),
}

/// What `watch` decides.
pub open spec fn watch_decision(event: Option<FsEvent>) -> WatchAction {
    match event {
        None => WatchAction::Ignore,
        Some(e) => match e.kind {
            FsEventKind::Remove => WatchAction::Reload,
            FsEventKind::Create | FsEventKind::Modify => if e.paths@.len() > 0 {
                WatchAction::Add(e.paths)
            } else {
                WatchAction::Ignore
            },
            FsEventKind::Other => WatchAction::Ignore,
        },
    }
}

impl Plugin {
    /// Decides what to do about one notification of the watcher, `None`
    /// standing for one that could not be read. A removal asks for a full
    /// rescan, since the path alone does not tell which record to drop. A
    /// creation or a modification asks to add the files it names. Anything
    /// else, and a creation or modification that names no file, is ignored.
    pub fn watch(event: Option<FsEvent>) -> (action: WatchAction)
        ensures
            action == watch_decision(event),
    {
        match event {
            None => WatchAction::Ignore,
            Some(e) => match e.kind {
                FsEventKind::Remove => WatchAction::Reload,
                FsEventKind::Create | FsEventKind::Modify => if e.paths.len() > 0 {
                    WatchAction::Add(e.paths)
                } else {
                    WatchAction::Ignore
                },
                FsEventKind::Other => WatchAction::Ignore,
            },
        }
    }
}

} // verus!
