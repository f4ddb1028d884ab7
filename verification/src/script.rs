//! The script/project cache: which scripts the editor has open, the
//! project descriptor synthesized for each, and the coalescing of
//! refresh work.
//!
//! The cache itself is plain state with exact contracts.  Running the
//! packaging tool is outside work: a task begins by taking the script's
//! path out of `begin_refresh` and reports what the tool said through
//! `finish_refresh`; both ends of that exchange are verified.

use vstd::prelude::*;
use crate::json::{
    Json, JField, JVal, JFieldV, jv, jv_seq, jv_fields, esc, json_str_from, lemma_jv_seq_at0,
    lemma_jv_fields_at0, };
use crate::bytes::{
    bytes_eq, bytes_clone, b_crates, k_crates, b_root_module, k_root_module, b_edition, k_edition,
    b_ed2021, k_ed2021, b_deps, k_deps, b_is_proc_macro, k_is_proc_macro, b_sysroot, k_sysroot,
};

verus! {

/// What the cache knows of one open script.
pub struct ScriptEntry {
    /// The URI under which the editor opened it.
    pub uri: Vec<u8>,
    /// The script's file path.
    pub source: Vec<u8>,
    /// The manifest of the synthesized package, once a refresh has
    /// produced one.
    pub manifest: Option<Vec<u8>>,
    /// The script's path inside the synthesized package, once known.
    pub package_root: Option<Vec<u8>>,
    /// A refresh has been asked for and not yet taken up.
    pub need_refresh: bool,
    /// A refresh task is in flight for this entry.
    pub refreshing: bool,
}

/// First index holding `uri`, or the length when none does.
pub open spec fn find_uri(es: Seq<ScriptEntry>, uri: Seq<u8>, i: int) -> int
    decreases es.len() - i,
{
    if i < 0 || i >= es.len() {
        es.len() as int
    } else if es[i].uri@ == uri {
        i
    } else {
        find_uri(es, uri, i + 1)
    }
}

pub open spec fn has_uri(es: Seq<ScriptEntry>, uri: Seq<u8>) -> bool {
    find_uri(es, uri, 0) < es.len()
}

pub proof fn lemma_find_uri_props(es: Seq<ScriptEntry>, uri: Seq<u8>, i: int)
    requires
        0 <= i <= es.len(),
    ensures
        i <= find_uri(es, uri, i) <= es.len(),
        find_uri(es, uri, i) < es.len() ==> es[find_uri(es, uri, i)].uri@ == uri,
        forall|m: int| i <= m < find_uri(es, uri, i) ==> es[m].uri@ != uri,
    decreases es.len() - i,
{
    if i < es.len() && es[i].uri@ != uri {
        lemma_find_uri_props(es, uri, i + 1);
    }
}

/// Entry URIs are pairwise distinct.
pub open spec fn scripts_wf(es: Seq<ScriptEntry>) -> bool {
    forall|i: int, j: int| 0 <= i < j < es.len() ==> es[i].uri@ != es[j].uri@
}

/// The `linkedProjects` element standing for one script before (or
/// without) a successful refresh: a single crate rooted at the script,
/// edition 2021, no dependencies, plus the sysroot when one is known.
pub open spec fn fallback_jval(source: Seq<u8>, sysroot: Option<Seq<u8>>) -> JVal {
    let krate = JVal::Obj(
        seq![
            JFieldV { key: k_root_module(), val: JVal::Str(esc(source)) },
            JFieldV { key: k_edition(), val: JVal::Str(k_ed2021()) },
            JFieldV { key: k_deps(), val: JVal::Arr(Seq::empty()) },
            JFieldV { key: k_is_proc_macro(), val: JVal::Bool(false) },
        ],
    );
    let head = seq![JFieldV { key: k_crates(), val: JVal::Arr(seq![krate]) }];
    match sysroot {
        Some(p) => JVal::Obj(head + seq![JFieldV { key: k_sysroot(), val: JVal::Str(esc(p)) }]),
        None => JVal::Obj(head),
    }
}

/// The descriptor the cache currently holds for an entry: the package
/// manifest once a refresh has delivered one, the fallback before.
pub open spec fn descriptor_of(manifest: Option<Seq<u8>>, source: Seq<u8>, sysroot: Option<Seq<u8>>) -> JVal {
    match manifest {
        Some(m) => JVal::Str(esc(m)),
        None => fallback_jval(source, sysroot),
    }
}

/// A name for what `url::Url::to_file_path` computes: the local file
/// path named by a file URI, if the URI is well formed, absolute and
/// local.  It depends on the URI bytes alone.
pub uninterp spec fn file_path_of_uri(u: Seq<u8>) -> Option<Seq<u8>>;

/// Relies on `url::Url::parse` and `url::Url::to_file_path`: parsing
/// the URI and turning it into the local path it names, `None` when it
/// is not a well-formed local file URI (or not valid UTF-8 on this
/// platform).  The result depends on the URI bytes alone.
#[verifier::external_body]
fn uri_to_path(uri: &Vec<u8>) -> (r: Option<Vec<u8>>)
    ensures
        match r {
            Some(p) => file_path_of_uri(uri@) == Some(p@),
            None => file_path_of_uri(uri@) is None,
        },
{
    let s = std::str::from_utf8(uri.as_slice()).ok()?;
    let path = url::Url::parse(s).ok()?.to_file_path().ok()?;
    Some(path.into_os_string().into_string().ok()?.into_bytes())
}


/// The URIs whose entries have no refresh task in flight, from `i` on:
/// the tasks `queue_refresh_all` asks its caller to start.
pub open spec fn spawn_list(es: Seq<ScriptEntry>, i: int) -> Seq<Seq<u8>>
    decreases es.len() - i,
{
    if i < 0 || i >= es.len() {
        Seq::empty()
    } else {
        (if !es[i].refreshing {
            seq![es[i].uri@]
        } else {
            Seq::empty()
        }) + spawn_list(es, i + 1)
    }
}

/// What `register` did, and so what the caller owes the bus: a newly
/// registered script wants a dirty mark and a refresh task.
#[derive(Debug)]
pub enum RegisterOutcome {
    /// The script was already in the cache; nothing changed.
    AlreadyPresent,
    /// The URI does not name a local file; nothing changed.
    NoPath,
    /// A new entry was installed.
    Registered,
}

/// The open scripts, in the order they were first registered.
pub struct Scripts {
    pub entries: Vec<ScriptEntry>,
    /// The toolchain sysroot, when the host could detect one.
    pub sysroot: Option<Vec<u8>>,
}

impl Scripts {
    pub fn new(sysroot: Option<Vec<u8>>) -> (r: Scripts)
        ensures
            r.entries@.len() == 0,
            r.sysroot == sysroot,
            scripts_wf(r.entries@),
    {
        Scripts { entries: Vec::new(), sysroot }
    }

    /// First index holding `uri`, if any.
    fn find(&self, uri: &Vec<u8>) -> (r: Option<usize>)
        ensures
            match r {
                Some(k) => k as int == find_uri(self.entries@, uri@, 0) && k < self.entries@.len(),
                None => !has_uri(self.entries@, uri@),
            },
    {
        let mut k: usize = 0;
        while k < self.entries.len()
            invariant
                k <= self.entries@.len(),
                find_uri(self.entries@, uri@, 0) == find_uri(self.entries@, uri@, k as int),
            decreases self.entries@.len() - k,
        {
            if bytes_eq(&self.entries[k].uri, uri) {
                return Some(k);
            }
            k = k + 1;
        }
        None
    }

    /// Put a script under management.  Registering an already-present
    /// URI changes nothing: doing it twice is doing it once.
    pub fn register(&mut self, uri: &Vec<u8>) -> (r: RegisterOutcome)
        requires
            scripts_wf(old(self).entries@),
        ensures
            scripts_wf(final(self).entries@),
            final(self).sysroot == old(self).sysroot,
            match r {
                RegisterOutcome::AlreadyPresent => {
                    &&& has_uri(old(self).entries@, uri@)
                    &&& *final(self) == *old(self)
                },
                RegisterOutcome::NoPath => {
                    &&& !has_uri(old(self).entries@, uri@)
                    &&& file_path_of_uri(uri@) is None
                    &&& *final(self) == *old(self)
                },
                RegisterOutcome::Registered => {
                    &&& !has_uri(old(self).entries@, uri@)
                    &&& file_path_of_uri(uri@) is Some
                    &&& final(self).entries@.len() == old(self).entries@.len() + 1
                    &&& final(self).entries@.subrange(0, old(self).entries@.len() as int) == old(
                        self,
                    ).entries@
                    &&& final(self).entries@.last().uri@ == uri@
                    &&& final(self).entries@.last().source@ == file_path_of_uri(uri@)->0
                    &&& final(self).entries@.last().manifest is None
                    &&& final(self).entries@.last().package_root is None
                    &&& final(self).entries@.last().need_refresh
                    &&& final(self).entries@.last().refreshing
                },
            },
    {
        match self.find(uri) {
            Some(_) => RegisterOutcome::AlreadyPresent,
            None => {
                match uri_to_path(uri) {
                    None => RegisterOutcome::NoPath,
                    Some(path) => {
                        let entry = ScriptEntry {
                            uri: bytes_clone(uri),
                            source: path,
                            manifest: None,
                            package_root: None,
                            need_refresh: true,
                            refreshing: true,
                        };
                        let ghost pre = self.entries@;
                        self.entries.push(entry);
                        proof {
                            assert(self.entries@.subrange(0, pre.len() as int) =~= pre);
                            lemma_find_uri_props(pre, uri@, 0);
                            assert forall|i: int, j: int|
                                0 <= i < j < self.entries@.len() implies self.entries@[i].uri@
                                != self.entries@[j].uri@ by {
                                if j < pre.len() {
                                } else {
                                    assert(self.entries@[j].uri@ == uri@);
                                    assert(pre[i].uri@ != uri@);
                                }
                            }
                        }
                        RegisterOutcome::Registered
                    },
                }
            },
        }
    }

    /// Drop a script; report whether it was there (and so whether the
    /// project set changed).  The order of the remaining entries is
    /// kept.
    pub fn deregister_if_registered(&mut self, uri: &Vec<u8>) -> (found: bool)
        requires
            scripts_wf(old(self).entries@),
        ensures
            scripts_wf(final(self).entries@),
            final(self).sysroot == old(self).sysroot,
            found == has_uri(old(self).entries@, uri@),
            !found ==> *final(self) == *old(self),
            found ==> {
                let k = find_uri(old(self).entries@, uri@, 0);
                final(self).entries@ == old(self).entries@.subrange(0, k) + old(
                    self,
                ).entries@.subrange(k + 1, old(self).entries@.len() as int)
            },
    {
        match self.find(uri) {
            None => false,
            Some(k) => {
                let ghost pre = self.entries@;
                self.entries.remove(k);
                proof {
                    assert(self.entries@ =~= pre.subrange(0, k as int) + pre.subrange(
                        k + 1,
                        pre.len() as int,
                    ));
                }
                true
            },
        }
    }

    /// Ask for a refresh of one script.  Returns true when the caller
    /// must start a task for it: the entry is there and no task is in
    /// flight.  A task already in flight will see the flag instead.
    pub fn queue_refresh(&mut self, uri: &Vec<u8>) -> (spawn: bool)
        requires
            scripts_wf(old(self).entries@),
        ensures
            scripts_wf(final(self).entries@),
            final(self).sysroot == old(self).sysroot,
            !has_uri(old(self).entries@, uri@) ==> *final(self) == *old(self) && !spawn,
            has_uri(old(self).entries@, uri@) ==> {
                let k = find_uri(old(self).entries@, uri@, 0);
                &&& spawn == !old(self).entries@[k].refreshing
                &&& final(self).entries@.len() == old(self).entries@.len()
                &&& final(self).entries@[k].uri == old(self).entries@[k].uri
                &&& final(self).entries@[k].source == old(self).entries@[k].source
                &&& final(self).entries@[k].manifest == old(self).entries@[k].manifest
                &&& final(self).entries@[k].package_root == old(self).entries@[k].package_root
                &&& final(self).entries@[k].need_refresh
                &&& final(self).entries@[k].refreshing
                &&& forall|m: int|
                    0 <= m < old(self).entries@.len() && m != k ==> final(self).entries@[m] == old(
                        self,
                    ).entries@[m]
            },
    {
        match self.find(uri) {
            None => false,
            Some(k) => {
                let mut e = self.entries.remove(k);
                let was_refreshing = e.refreshing;
                e.need_refresh = true;
                e.refreshing = true;
                self.entries.insert(k, e);
                proof {
                    assert(self.entries@ =~= old(self).entries@.update(
                        k as int,
                        self.entries@[k as int],
                    ));
                    assert forall|i: int, j: int|
                        0 <= i < j < self.entries@.len() implies self.entries@[i].uri@
                        != self.entries@[j].uri@ by {
                        assert(old(self).entries@[i].uri@ != old(self).entries@[j].uri@);
                    }
                }
                !was_refreshing
            },
        }
    }


    /// Ask for a refresh of every script.  Returns the URIs for which
    /// the caller must start tasks: those with no task in flight.
    pub fn queue_refresh_all(&mut self) -> (spawns: Vec<Vec<u8>>)
        requires
            scripts_wf(old(self).entries@),
        ensures
            scripts_wf(final(self).entries@),
            final(self).sysroot == old(self).sysroot,
            final(self).entries@.len() == old(self).entries@.len(),
            forall|k: int|
                0 <= k < old(self).entries@.len() ==> {
                    &&& (#[trigger] final(self).entries@[k]).uri == old(self).entries@[k].uri
                    &&& final(self).entries@[k].source == old(self).entries@[k].source
                    &&& final(self).entries@[k].manifest == old(self).entries@[k].manifest
                    &&& final(self).entries@[k].package_root == old(
                        self,
                    ).entries@[k].package_root
                    &&& final(self).entries@[k].need_refresh
                    &&& final(self).entries@[k].refreshing
                },
            spawns@.map_values(|u: Vec<u8>| u@) == spawn_list(old(self).entries@, 0),
    {
        let mut spawns: Vec<Vec<u8>> = Vec::new();
        let mut k: usize = 0;
        proof {
            assert(spawns@.map_values(|u: Vec<u8>| u@) =~= Seq::<Seq<u8>>::empty());
        }
        while k < self.entries.len()
            invariant
                k <= self.entries@.len(),
                scripts_wf(old(self).entries@),
                self.entries@.len() == old(self).entries@.len(),
                self.sysroot == old(self).sysroot,
                forall|m: int|
                    k as int <= m < old(self).entries@.len() ==> #[trigger] self.entries@[m]
                        == old(self).entries@[m],
                forall|m: int|
                    0 <= m < k as int ==> {
                        &&& (#[trigger] self.entries@[m]).uri == old(self).entries@[m].uri
                        &&& self.entries@[m].source == old(self).entries@[m].source
                        &&& self.entries@[m].manifest == old(self).entries@[m].manifest
                        &&& self.entries@[m].package_root == old(self).entries@[m].package_root
                        &&& self.entries@[m].need_refresh
                        &&& self.entries@[m].refreshing
                    },
                spawn_list(old(self).entries@, 0) == spawns@.map_values(|u: Vec<u8>| u@)
                    + spawn_list(old(self).entries@, k as int),
            decreases self.entries@.len() - k,
        {
            let mut e = self.entries.remove(k);
            let was_refreshing = e.refreshing;
            e.need_refresh = true;
            e.refreshing = true;
            let ghost spre = spawns@;
            if !was_refreshing {
                spawns.push(bytes_clone(&e.uri));
            }
            self.entries.insert(k, e);
            proof {
                let pre = spre.map_values(|u: Vec<u8>| u@);
                assert(spawn_list(old(self).entries@, k as int) == (
                if !old(self).entries@[k as int].refreshing {
                    seq![old(self).entries@[k as int].uri@]
                } else {
                    Seq::<Seq<u8>>::empty()
                }) + spawn_list(old(self).entries@, k + 1));
                if !was_refreshing {
                    assert(spawns@.map_values(|u: Vec<u8>| u@) =~= pre.push(
                        old(self).entries@[k as int].uri@,
                    ));
                    assert(pre + (seq![old(self).entries@[k as int].uri@] + spawn_list(
                        old(self).entries@,
                        k + 1,
                    )) =~= (pre + seq![old(self).entries@[k as int].uri@]) + spawn_list(
                        old(self).entries@,
                        k + 1,
                    ));
                    assert(pre.push(old(self).entries@[k as int].uri@) =~= pre + seq![
                        old(self).entries@[k as int].uri@,
                    ]);
                } else {
                    assert(Seq::<Seq<u8>>::empty() + spawn_list(old(self).entries@, k + 1)
                        =~= spawn_list(old(self).entries@, k + 1));
                }
            }
            k = k + 1;
            proof {
                assert forall|i: int, j: int|
                    0 <= i < j < self.entries@.len() implies self.entries@[i].uri@
                    != self.entries@[j].uri@ by {
                    assert(self.entries@[i].uri@ == old(self).entries@[i].uri@);
                    assert(self.entries@[j].uri@ == old(self).entries@[j].uri@);
                    assert(old(self).entries@[i].uri@ != old(self).entries@[j].uri@);
                }
            }
        }
        proof {
            assert(spawn_list(old(self).entries@, old(self).entries@.len() as int) =~= Seq::<
                Seq<u8>,
            >::empty());
            assert(spawns@.map_values(|u: Vec<u8>| u@) + Seq::<Seq<u8>>::empty() =~= spawns@.map_values(
                |u: Vec<u8>| u@,
            ));
        }
        spawns
    }

    /// The descriptors of all managed scripts, one per entry, in the
    /// order their URIs were first registered.
    pub fn projects(&self) -> (r: Vec<Json>)
        ensures
            r@.len() == self.entries@.len(),
            forall|k: int|
                0 <= k < r@.len() ==> jv(#[trigger] r@[k]) == descriptor_of(
                    match self.entries@[k].manifest {
                        Some(m) => Some(m@),
                        None => None,
                    },
                    self.entries@[k].source@,
                    match self.sysroot {
                        Some(p) => Some(p@),
                        None => None,
                    },
                ),
    {
        let mut out: Vec<Json> = Vec::new();
        let mut k: usize = 0;
        while k < self.entries.len()
            invariant
                k <= self.entries@.len(),
                out@.len() == k,
                forall|m: int|
                    0 <= m < k as int ==> jv(#[trigger] out@[m]) == descriptor_of(
                        match self.entries@[m].manifest {
                            Some(mm) => Some(mm@),
                            None => None,
                        },
                        self.entries@[m].source@,
                        match self.sysroot {
                            Some(p) => Some(p@),
                            None => None,
                        },
                    ),
            decreases self.entries@.len() - k,
        {
            let e = &self.entries[k];
            let d = match &e.manifest {
                Some(m) => json_str_from(m),
                None => fallback_project(&e.source, &self.sysroot),
            };
            out.push(d);
            k = k + 1;
        }
        out
    }

    /// A refresh task begins: take the work if any is queued, else
    /// stand down.  `Some(source)` hands the task the script path to
    /// package; `None` releases the in-flight slot.
    pub fn begin_refresh(&mut self, uri: &Vec<u8>) -> (r: Option<Vec<u8>>)
        requires
            scripts_wf(old(self).entries@),
        ensures
            scripts_wf(final(self).entries@),
            final(self).sysroot == old(self).sysroot,
            !has_uri(old(self).entries@, uri@) ==> *final(self) == *old(self) && r is None,
            has_uri(old(self).entries@, uri@) ==> {
                let k = find_uri(old(self).entries@, uri@, 0);
                &&& final(self).entries@.len() == old(self).entries@.len()
                &&& forall|m: int|
                    0 <= m < old(self).entries@.len() && m != k ==> final(self).entries@[m] == old(
                        self,
                    ).entries@[m]
                &&& final(self).entries@[k].uri == old(self).entries@[k].uri
                &&& final(self).entries@[k].source == old(self).entries@[k].source
                &&& final(self).entries@[k].manifest == old(self).entries@[k].manifest
                &&& final(self).entries@[k].package_root == old(self).entries@[k].package_root
                &&& final(self).entries@[k].need_refresh == false
                &&& (match r {
                    Some(src) => {
                        &&& old(self).entries@[k].need_refresh
                        &&& src@ == old(self).entries@[k].source@
                        &&& final(self).entries@[k].refreshing == old(
                            self,
                        ).entries@[k].refreshing
                    },
                    None => {
                        &&& !old(self).entries@[k].need_refresh
                        &&& final(self).entries@[k].refreshing == false
                    },
                })
            },
    {
        match self.find(uri) {
            None => None,
            Some(k) => {
                let mut e = self.entries.remove(k);
                let had_work = e.need_refresh;
                e.need_refresh = false;
                if !had_work {
                    e.refreshing = false;
                }
                let source_copy = bytes_clone(&e.source);
                self.entries.insert(k, e);
                proof {
                    assert(self.entries@ =~= old(self).entries@.update(
                        k as int,
                        self.entries@[k as int],
                    ));
                    assert forall|i: int, j: int|
                        0 <= i < j < self.entries@.len() implies self.entries@[i].uri@
                        != self.entries@[j].uri@ by {
                        assert(old(self).entries@[i].uri@ != old(self).entries@[j].uri@);
                    }
                }
                if had_work {
                    Some(source_copy)
                } else {
                    None
                }
            },
        }
    }

    /// A refresh task reports the package the tool produced.  The
    /// descriptor is replaced only when it differs; the report says
    /// whether it did, and so whether a reload is owed.
    pub fn finish_refresh(&mut self, uri: &Vec<u8>, manifest: &Vec<u8>, package_root: &Vec<u8>) -> (changed:
        bool)
        requires
            scripts_wf(old(self).entries@),
        ensures
            scripts_wf(final(self).entries@),
            final(self).sysroot == old(self).sysroot,
            !has_uri(old(self).entries@, uri@) ==> *final(self) == *old(self) && !changed,
            has_uri(old(self).entries@, uri@) ==> {
                let k = find_uri(old(self).entries@, uri@, 0);
                &&& changed == !(old(self).entries@[k].manifest is Some
                    && old(self).entries@[k].manifest->0@ == manifest@)
                &&& final(self).entries@.len() == old(self).entries@.len()
                &&& forall|m: int|
                    0 <= m < old(self).entries@.len() && m != k ==> final(self).entries@[m] == old(
                        self,
                    ).entries@[m]
                &&& (!changed ==> final(self).entries@[k] == old(self).entries@[k])
                &&& (changed ==> final(self).entries@[k].uri == old(self).entries@[k].uri)
                &&& (changed ==> final(self).entries@[k].source == old(self).entries@[k].source)
                &&& (changed ==> final(self).entries@[k].manifest is Some)
                &&& (changed ==> final(self).entries@[k].manifest->0@ == manifest@)
                &&& (changed ==> final(self).entries@[k].package_root is Some)
                &&& (changed ==> final(self).entries@[k].package_root->0@ == package_root@)
                &&& (changed ==> final(self).entries@[k].need_refresh == old(
                    self,
                ).entries@[k].need_refresh)
                &&& (changed ==> final(self).entries@[k].refreshing == old(
                    self,
                ).entries@[k].refreshing)
            },
    {
        match self.find(uri) {
            None => false,
            Some(k) => {
                let same = match &self.entries[k].manifest {
                    Some(m) => bytes_eq(m, manifest),
                    None => false,
                };
                if same {
                    return false;
                }
                let mut e = self.entries.remove(k);
                e.manifest = Some(bytes_clone(manifest));
                e.package_root = Some(bytes_clone(package_root));
                self.entries.insert(k, e);
                proof {
                    assert(self.entries@ =~= old(self).entries@.update(
                        k as int,
                        self.entries@[k as int],
                    ));
                    assert forall|i: int, j: int|
                        0 <= i < j < self.entries@.len() implies self.entries@[i].uri@
                        != self.entries@[j].uri@ by {
                        assert(old(self).entries@[i].uri@ != old(self).entries@[j].uri@);
                    }
                }
                true
            },
        }
    }
}

/// The fallback descriptor for one script.
pub fn fallback_project(source: &Vec<u8>, sysroot: &Option<Vec<u8>>) -> (r: Json)
    ensures
        jv(r) == fallback_jval(
            source@,
            match sysroot {
                Some(p) => Some(p@),
                None => None,
            },
        ),
{
    let mut krate_fields: Vec<JField> = Vec::new();
    krate_fields.push(JField { key: b_root_module(), val: json_str_from(source) });
    krate_fields.push(JField { key: b_edition(), val: Json::Str(b_ed2021()) });
    krate_fields.push(JField { key: b_deps(), val: Json::Arr(Vec::new()) });
    krate_fields.push(JField { key: b_is_proc_macro(), val: Json::Bool(false) });
    let krate = Json::Obj(krate_fields);
    let mut crates: Vec<Json> = Vec::new();
    crates.push(krate);
    let mut fields: Vec<JField> = Vec::new();
    fields.push(JField { key: b_crates(), val: Json::Arr(crates) });
    match sysroot {
        Some(p) => {
            fields.push(JField { key: b_sysroot(), val: json_str_from(p) });
        },
        None => {},
    }
    let r = Json::Obj(fields);
    proof {
        let sv: Option<Seq<u8>> = match sysroot {
            Some(p) => Some(p@),
            None => None,
        };
        let krate_spec = JVal::Obj(
            seq![
                JFieldV { key: k_root_module(), val: JVal::Str(esc(source@)) },
                JFieldV { key: k_edition(), val: JVal::Str(k_ed2021()) },
                JFieldV { key: k_deps(), val: JVal::Arr(Seq::empty()) },
                JFieldV { key: k_is_proc_macro(), val: JVal::Bool(false) },
            ],
        );
        lemma_jv_fields_at0(krate_fields@);
        assert(jv_fields(krate_fields@, 0) =~= krate_spec->Obj_0);
        lemma_jv_seq_at0(crates@);
        assert(jv_seq(crates@, 0) =~= seq![krate_spec]);
        lemma_jv_fields_at0(fields@);
        assert(jv_fields(fields@, 0) =~= fallback_jval(source@, sv)->Obj_0);
        assert(jv(r) == fallback_jval(source@, sv));
    }
    r
}

} // verus!
