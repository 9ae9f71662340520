//! The lifecycle state machine: validates and performs the create, start,
//! stop, remove and list operations, coordinating the registry, the port
//! allocator and the manifest generator.
//!
//! The external orchestration runtime is driven by the caller between the
//! `*_begin` and `*_finish` halves of start, stop and remove: `*_begin`
//! validates the request and hands back the instance's working directory,
//! the caller performs the external action without holding the registry, and
//! `*_finish` re-checks the state and performs the terminal write in one
//! atomic call, so a stale check is never acted upon.

use vstd::prelude::*;

use crate::errors::ClientError;
use crate::manifest::{generate, manifest_text, work_dir_of, work_dir_string};
use crate::paging::{page, spec_clamp_page, spec_page_count, PageInfo};
use crate::ports::{allocate, is_first_free_port, some_port_free};
use crate::record::{summarize, summary_of, with_started, InstanceSummary, Servers};
use crate::registry::{has_name, has_port, idx_of, record_of, wf_records, Registry};
use crate::text::{lex_lt, lowercase, lower_of};

verus! {

/// The configuration the manager consumes.
#[derive(Debug)]
pub struct Config {
    /// Ports are drawn from `[min_port, max_port)`.
    pub min_port: i64,
    pub max_port: i64,
    /// The variant recorded when a request names none.
    pub default_difficulty: String,
    /// The administrator identity embedded into generated manifests.
    pub admin_player: String,
    /// When set, at most one instance may be running system-wide.
    pub single_instance: bool,
}

/// What a successful create hands back: the new record's stable id, its
/// summary, the generated manifest document, and the working directory the
/// caller must create and write the manifest into.
#[derive(Debug)]
pub struct CreateOutcome {
    pub id: i64,
    pub summary: InstanceSummary,
    pub manifest: String,
    pub work_dir: String,
}

/// Every port of `s` lies in `[min, max)`.
pub open spec fn ports_in_range(s: Seq<Servers>, min: int, max: int) -> bool {
    forall|i: int| 0 <= i < s.len() ==> min <= #[trigger] s[i].port < max
}

/// Some record of `s` is running.
pub open spec fn some_running(s: Seq<Servers>) -> bool {
    exists|i: int| 0 <= i < s.len() && #[trigger] s[i].started
}

/// No two records of `s` are running at once.
pub open spec fn at_most_one_running(s: Seq<Servers>) -> bool {
    forall|i: int, j: int|
        0 <= i < j < s.len() ==> !(#[trigger] s[i].started && #[trigger] s[j].started)
}

/// The ports of the records of `s`, in order.
pub open spec fn ports_of(s: Seq<Servers>) -> Seq<i64> {
    Seq::new(s.len(), |i: int| s[i].port)
}

/// Whether the version `v` is in the allowed list `vs`.
pub open spec fn in_versions(vs: Seq<Seq<char>>, v: Seq<char>) -> bool {
    exists|k: int| 0 <= k < vs.len() && #[trigger] vs[k] == v
}

/// A port is among the ports of `s` exactly when a record of `s` holds it.
proof fn lemma_ports_of_contains(s: Seq<Servers>, p: i64)
    ensures
        ports_of(s).contains(p) <==> has_port(s, p),
{
    if ports_of(s).contains(p) {
        let i = choose|i: int| 0 <= i < ports_of(s).len() && ports_of(s)[i] == p;
        assert(s[i].port == p);
    }
    if has_port(s, p) {
        let i = choose|i: int| 0 <= i < s.len() && s[i].port == p;
        assert(ports_of(s)[i] == p);
        assert(ports_of(s).contains(p));
    }
}

/// Whether `vs` holds the version `v`.
fn contains_version(vs: &Vec<String>, v: &String) -> (r: bool)
    ensures
        r == in_versions(vs.deep_view(), v@),
{
    let n = vs.len();
    let mut i: usize = 0;
    proof {
        assert(vs.deep_view().len() == vs@.len());
    }
    while i < n
        invariant
            i <= n,
            n == vs@.len(),
            vs.deep_view().len() == n,
            forall|k: int| 0 <= k < i ==> #[trigger] vs.deep_view()[k] != v@,
        decreases n - i,
    {
        proof {
            assert(vs.deep_view()[i as int] == vs@[i as int]@);
        }
        if vs[i] == *v {
            return true;
        }
        i += 1;
    }
    false
}

/// The lifecycle manager: the registry together with its configuration.
pub struct Manager {
    registry: Registry,
    config: Config,
}

impl View for Manager {
    type V = Seq<Servers>;

    closed spec fn view(&self) -> Seq<Servers> {
        self.registry@
    }
}

impl Manager {
    /// The configuration the manager was built with.
    pub closed spec fn spec_config(&self) -> Config {
        self.config
    }

    /// Whether the registry can no longer mint a fresh id.
    pub closed spec fn id_exhausted(&self) -> bool {
        self.registry.id_exhausted()
    }

    /// The manager invariant: the registry is well-formed, every allocated
    /// port lies in the configured range, and — under the single-instance
    /// policy — at most one instance is running.
    pub closed spec fn inv(&self) -> bool {
        &&& self.registry.inv()
        &&& 0 <= self.config.min_port
        &&& ports_in_range(
            self.registry@,
            self.config.min_port as int,
            self.config.max_port as int,
        )
        &&& (self.config.single_instance ==> at_most_one_running(self.registry@))
    }

    /// What the invariant guarantees of the visible records: the listing is
    /// strictly sorted by name (so listings are deterministic), every port
    /// lies in the configured range, and the single-instance policy, when
    /// configured, holds.
    pub proof fn lemma_inv_facts(&self)
        requires
            self.inv(),
        ensures
            wf_records(self@),
            ports_in_range(
                self@,
                self.spec_config().min_port as int,
                self.spec_config().max_port as int,
            ),
            self.spec_config().single_instance ==> at_most_one_running(self@),
            0 <= self.spec_config().min_port,
    {
    }

    /// Name uniqueness: no two records bear the same normalized name.
    pub proof fn lemma_names_unique(&self)
        requires
            self.inv(),
        ensures
            forall|i: int, j: int|
                0 <= i < self@.len() && 0 <= j < self@.len() && i != j ==> #[trigger] self@[i].name@
                    != #[trigger] self@[j].name@,
    {
        assert forall|i: int, j: int|
            0 <= i < self@.len() && 0 <= j < self@.len() && i != j implies #[trigger] self@[i].name@
            != #[trigger] self@[j].name@ by {
            if i < j {
                assert(lex_lt(self@[i].name@, self@[j].name@));
            } else {
                assert(lex_lt(self@[j].name@, self@[i].name@));
            }
        }
    }

    /// Port exclusivity: no two records share a port, and every port lies in
    /// the configured range.
    pub proof fn lemma_ports_exclusive(&self)
        requires
            self.inv(),
        ensures
            forall|i: int, j: int|
                0 <= i < self@.len() && 0 <= j < self@.len() && i != j ==> #[trigger] self@[i].port
                    != #[trigger] self@[j].port,
            ports_in_range(
                self@,
                self.spec_config().min_port as int,
                self.spec_config().max_port as int,
            ),
    {
        assert forall|i: int, j: int|
            0 <= i < self@.len() && 0 <= j < self@.len() && i != j implies #[trigger] self@[i].port
            != #[trigger] self@[j].port by {
            if i < j {
                assert(self@[i].port != self@[j].port);
            } else {
                assert(self@[j].port != self@[i].port);
            }
        }
    }

    /// The single-instance policy, when configured, is an invariant: at most
    /// one record is running.
    pub proof fn lemma_single_instance(&self)
        requires
            self.inv(),
            self.spec_config().single_instance,
        ensures
            at_most_one_running(self@),
    {
    }

    /// A manager over an empty registry.
    pub fn new(config: Config) -> (m: Manager)
        requires
            0 <= config.min_port,
        ensures
            m.inv(),
            m@ =~= Seq::<Servers>::empty(),
            m.spec_config() == config,
            !m.id_exhausted(),
    {
        Manager { registry: Registry::new(), config }
    }

    /// Creates an instance: normalizes the name, enforces name uniqueness,
    /// validates the requested version against the allowed list, allocates
    /// the first free port of the configured range, generates the manifest,
    /// and inserts the record in state `Stopped` — all in one atomic call.
    ///
    /// On any failure nothing is inserted and the registry is unchanged, so
    /// no record and no port reservation survives a failed attempt; the
    /// caller creates the working directory and writes the manifest only on
    /// success, and rolls both back with `remove_finish` should that write
    /// fail.
    pub fn create(
        &mut self,
        name: &String,
        version: Option<&String>,
        difficulty: Option<&String>,
        allowed_versions: &Vec<String>,
    ) -> (r: Result<CreateOutcome, ClientError>)
        requires
            old(self).inv(),
        ensures
            final(self).inv(),
            final(self).spec_config() == old(self).spec_config(),
            final(self)@.len() >= old(self)@.len(),
            ({
                let norm = lower_of(name@);
                let dup = has_name(old(self)@, norm);
                let ver_ok = match version {
                    Some(v) => in_versions(allowed_versions.deep_view(), v@),
                    None => true,
                };
                let free = some_port_free(
                    old(self).spec_config().min_port,
                    old(self).spec_config().max_port,
                    ports_of(old(self)@),
                );
                &&& (r is Ok <==> !dup && ver_ok && free && !old(self).id_exhausted())
                &&& (r matches Err(e) ==> {
                    &&& final(self)@ == old(self)@
                    &&& (e matches ClientError::AlreadyExists <==> dup)
                    &&& (e matches ClientError::InvalidVersion <==> !dup && !ver_ok)
                    &&& (e matches ClientError::NoPortAvailable <==> !dup && ver_ok && !free)
                    &&& (e matches ClientError::StorageError(_) <==> !dup && ver_ok && free && old(
                        self,
                    ).id_exhausted())
                })
                &&& (r matches Ok(out) ==> {
                    &&& out.summary.name@ == norm
                    &&& out.summary.started == false
                    &&& is_first_free_port(
                        out.summary.port,
                        old(self).spec_config().min_port,
                        old(self).spec_config().max_port,
                        ports_of(old(self)@),
                    )
                    &&& out.summary.version@ == (match version {
                        Some(v) => v@,
                        None => "latest"@,
                    })
                    &&& out.summary.difficulty@ == (match difficulty {
                        Some(d) => d@,
                        None => old(self).spec_config().default_difficulty@,
                    })
                    &&& out.manifest@ == manifest_text(
                        norm,
                        match version {
                            Some(v) => Some(v@),
                            None => None,
                        },
                        out.summary.difficulty@,
                        out.summary.port as int,
                        old(self).spec_config().admin_player@,
                    )
                    &&& 0 <= out.id
                    &&& forall|k: int|
                        0 <= k < old(self)@.len() ==> #[trigger] old(self)@[k].id != out.id
                    &&& out.work_dir@ == work_dir_of(out.id as int)
                    &&& exists|i: int|
                        0 <= i <= old(self)@.len() && final(self)@ =~= old(self)@.insert(
                            i,
                            (Servers {
                                id: out.id,
                                name: out.summary.name,
                                version: out.summary.version,
                                difficulty: out.summary.difficulty,
                                port: out.summary.port,
                                started: false,
                            }),
                        )
                })
            }),
    {
        let norm = lowercase(name);
        if self.registry.contains_name(&norm) {
            return Err(ClientError::AlreadyExists);
        }
        if let Some(v) = version {
            if !contains_version(allowed_versions, v) {
                return Err(ClientError::InvalidVersion);
            }
        }
        let used = self.registry.allocated_ports();
        proof {
            assert(used@ =~= ports_of(self@));
        }
        let port = match allocate(self.config.min_port, self.config.max_port, &used) {
            Ok(p) => p,
            Err(e) => {
                return Err(e);
            },
        };
        let version_str: String = match version {
            Some(v) => v.clone(),
            None => "latest".to_owned(),
        };
        let difficulty_str: String = match difficulty {
            Some(d) => d.clone(),
            None => self.config.default_difficulty.clone(),
        };
        let manifest = generate(&norm, version, &difficulty_str, port, &self.config.admin_player);
        let summary = InstanceSummary {
            name: norm.clone(),
            version: version_str.clone(),
            difficulty: difficulty_str.clone(),
            port,
            started: false,
        };
        proof {
            lemma_ports_of_contains(self@, port);
        }
        let id = match self.registry.insert(norm, version_str, difficulty_str, port) {
            Ok(id) => id,
            Err(e) => {
                return Err(e);
            },
        };
        let work_dir = work_dir_string(id);
        proof {
            let s_old = old(self)@;
            let rec = (Servers {
                id,
                name: summary.name,
                version: summary.version,
                difficulty: summary.difficulty,
                port: summary.port,
                started: false,
            });
            let gi = choose|i: int| 0 <= i <= s_old.len() && self@ =~= s_old.insert(i, rec);
            s_old.insert_ensures(gi, rec);
            assert(self@ == s_old.insert(gi, rec));
            assert forall|k: int|
                0 <= k < self@.len() implies self.config.min_port
                <= #[trigger] self@[k].port < self.config.max_port by {
                if k < gi {
                    assert(self@[k] == s_old[k]);
                } else if k > gi {
                    assert(self@[k] == s_old[k - 1]);
                }
            }
            if self.config.single_instance {
                assert forall|i: int, j: int|
                    0 <= i < j < self@.len() implies !(#[trigger] self@[i].started
                    && #[trigger] self@[j].started) by {
                    if i != gi && j != gi {
                        let i0 = if i < gi {
                            i
                        } else {
                            i - 1
                        };
                        let j0 = if j < gi {
                            j
                        } else {
                            j - 1
                        };
                        assert(self@[i] == s_old[i0] && self@[j] == s_old[j0]);
                    }
                }
            }
        }
        Ok(CreateOutcome { id, summary, manifest, work_dir })
    }

    /// Validates a start request: the instance must exist, be `Stopped`,
    /// and — under the single-instance policy — nothing else may be running.
    /// On success hands back the instance's working directory, against which
    /// the caller runs the orchestration runtime's start action before
    /// calling `start_finish` with its outcome. Reads only; no state
    /// changes.
    pub fn start_begin(&self, name: &String) -> (r: Result<String, ClientError>)
        requires
            self.inv(),
        ensures
            ({
                let norm = lower_of(name@);
                &&& (r is Ok <==> has_name(self@, norm) && !record_of(self@, norm).started && (
                self.spec_config().single_instance ==> !some_running(self@)))
                &&& (r matches Ok(wd) ==> wd@ == work_dir_of(record_of(self@, norm).id as int))
                &&& (r matches Err(e) ==> {
                    &&& (e matches ClientError::NotFound <==> !has_name(self@, norm))
                    &&& (e matches ClientError::AlreadyRunning <==> has_name(self@, norm) && (
                    record_of(self@, norm).started || (self.spec_config().single_instance
                        && some_running(self@))))
                    &&& (e matches ClientError::NotFound || e matches ClientError::AlreadyRunning)
                })
            }),
    {
        let norm = lowercase(name);
        let rec_id: i64;
        match self.registry.get(&norm) {
            None => {
                return Err(ClientError::NotFound);
            },
            Some(rec) => {
                if rec.started {
                    return Err(ClientError::AlreadyRunning);
                }
                rec_id = rec.id;
            },
        }
        if self.config.single_instance && self.any_running() {
            return Err(ClientError::AlreadyRunning);
        }
        proof {
            assert(0 <= rec_id);
        }
        Ok(work_dir_string(rec_id))
    }

    /// Records the outcome of the orchestration runtime's start action. On
    /// runtime failure the state is left unchanged and the failure is
    /// surfaced; on runtime success the precondition is re-checked and the
    /// record is marked `Running` in the same atomic call, so the record is
    /// never `Running` unless the runtime reported success.
    pub fn start_finish(&mut self, name: &String, process_result: Result<
        (),
        String,
    >) -> (r: Result<(), ClientError>)
        requires
            old(self).inv(),
        ensures
            final(self).inv(),
            final(self).spec_config() == old(self).spec_config(),
            ({
                let norm = lower_of(name@);
                let may_start = has_name(old(self)@, norm) && !record_of(old(self)@, norm).started
                    && (old(self).spec_config().single_instance ==> !some_running(old(self)@));
                &&& (r is Ok <==> process_result is Ok && may_start)
                &&& (r is Ok ==> final(self)@ =~= old(self)@.update(
                    idx_of(old(self)@, norm),
                    with_started(record_of(old(self)@, norm), true),
                ))
                &&& (r is Err ==> final(self)@ == old(self)@)
                &&& (process_result matches Err(c) ==> r == Err::<(), ClientError>(
                    ClientError::ProcessError(c),
                ))
                &&& (r matches Err(e) ==> {
                    &&& (e matches ClientError::ProcessError(_) <==> process_result is Err)
                    &&& (e matches ClientError::NotFound <==> process_result is Ok && !has_name(
                        old(self)@,
                        norm,
                    ))
                    &&& (e matches ClientError::AlreadyRunning <==> process_result is Ok
                        && has_name(old(self)@, norm) && (record_of(old(self)@, norm).started || (
                    old(self).spec_config().single_instance && some_running(old(self)@))))
                })
            }),
    {
        if let Err(cause) = process_result {
            return Err(ClientError::ProcessError(cause));
        }
        let norm = lowercase(name);
        match self.registry.get(&norm) {
            None => {
                return Err(ClientError::NotFound);
            },
            Some(rec) => {
                if rec.started {
                    return Err(ClientError::AlreadyRunning);
                }
            },
        }
        if self.config.single_instance && self.any_running() {
            return Err(ClientError::AlreadyRunning);
        }
        let res = self.registry.set_started(&norm, true);
        proof {
            let s_old = old(self)@;
            let gi = idx_of(s_old, norm@);
            assert(self@ == s_old.update(gi, with_started(record_of(s_old, norm@), true)));
            assert forall|k: int|
                0 <= k < self@.len() implies self.config.min_port
                <= #[trigger] self@[k].port < self.config.max_port by {
                if k != gi {
                    assert(self@[k] == s_old[k]);
                }
            }
            if self.config.single_instance {
                assert forall|i: int, j: int|
                    0 <= i < j < self@.len() implies !(#[trigger] self@[i].started
                    && #[trigger] self@[j].started) by {
                    if i != gi {
                        assert(self@[i] == s_old[i]);
                    }
                    if j != gi {
                        assert(self@[j] == s_old[j]);
                    }
                }
            }
        }
        match res {
            Ok(()) => Ok(()),
            Err(e) => Err(e),
        }
    }

    /// Validates a stop request: the instance must exist and be `Running`.
    /// On success hands back the instance's working directory, against which
    /// the caller runs the orchestration runtime's stop action before
    /// calling `stop_finish` with its outcome. Reads only; no state changes.
    pub fn stop_begin(&self, name: &String) -> (r: Result<String, ClientError>)
        requires
            self.inv(),
        ensures
            ({
                let norm = lower_of(name@);
                &&& (r is Ok <==> has_name(self@, norm) && record_of(self@, norm).started)
                &&& (r matches Ok(wd) ==> wd@ == work_dir_of(record_of(self@, norm).id as int))
                &&& (r matches Err(e) ==> {
                    &&& (e matches ClientError::NotFound <==> !has_name(self@, norm))
                    &&& (e matches ClientError::AlreadyStopped <==> has_name(self@, norm)
                        && !record_of(self@, norm).started)
                    &&& (e matches ClientError::NotFound || e matches ClientError::AlreadyStopped)
                })
            }),
    {
        let norm = lowercase(name);
        match self.registry.get(&norm) {
            None => Err(ClientError::NotFound),
            Some(rec) => {
                if !rec.started {
                    Err(ClientError::AlreadyStopped)
                } else {
                    proof {
                        assert(0 <= rec.id);
                    }
                    Ok(work_dir_string(rec.id))
                }
            },
        }
    }

    /// Records the outcome of the orchestration runtime's stop action. On
    /// runtime failure the state is left unchanged — the caller cannot
    /// safely assume the process actually stopped — and the failure is
    /// surfaced; on runtime success the precondition is re-checked and the
    /// record is marked `Stopped` in the same atomic call.
    pub fn stop_finish(&mut self, name: &String, process_result: Result<(), String>) -> (r: Result<
        (),
        ClientError,
    >)
        requires
            old(self).inv(),
        ensures
            final(self).inv(),
            final(self).spec_config() == old(self).spec_config(),
            ({
                let norm = lower_of(name@);
                let may_stop = has_name(old(self)@, norm) && record_of(old(self)@, norm).started;
                &&& (r is Ok <==> process_result is Ok && may_stop)
                &&& (r is Ok ==> final(self)@ =~= old(self)@.update(
                    idx_of(old(self)@, norm),
                    with_started(record_of(old(self)@, norm), false),
                ))
                &&& (r is Err ==> final(self)@ == old(self)@)
                &&& (process_result matches Err(c) ==> r == Err::<(), ClientError>(
                    ClientError::ProcessError(c),
                ))
                &&& (r matches Err(e) ==> {
                    &&& (e matches ClientError::ProcessError(_) <==> process_result is Err)
                    &&& (e matches ClientError::NotFound <==> process_result is Ok && !has_name(
                        old(self)@,
                        norm,
                    ))
                    &&& (e matches ClientError::AlreadyStopped <==> process_result is Ok
                        && has_name(old(self)@, norm) && !record_of(old(self)@, norm).started)
                })
            }),
    {
        if let Err(cause) = process_result {
            return Err(ClientError::ProcessError(cause));
        }
        let norm = lowercase(name);
        match self.registry.get(&norm) {
            None => {
                return Err(ClientError::NotFound);
            },
            Some(rec) => {
                if !rec.started {
                    return Err(ClientError::AlreadyStopped);
                }
            },
        }
        let res = self.registry.set_started(&norm, false);
        proof {
            let s_old = old(self)@;
            let gi = idx_of(s_old, norm@);
            assert(self@ == s_old.update(gi, with_started(record_of(s_old, norm@), false)));
            assert forall|k: int|
                0 <= k < self@.len() implies self.config.min_port
                <= #[trigger] self@[k].port < self.config.max_port by {
                if k != gi {
                    assert(self@[k] == s_old[k]);
                }
            }
            if self.config.single_instance {
                assert forall|i: int, j: int|
                    0 <= i < j < self@.len() implies !(#[trigger] self@[i].started
                    && #[trigger] self@[j].started) by {
                    if i != gi {
                        assert(self@[i] == s_old[i]);
                    }
                    if j != gi {
                        assert(self@[j] == s_old[j]);
                    }
                }
            }
        }
        match res {
            Ok(()) => Ok(()),
            Err(e) => Err(e),
        }
    }

    /// Validates a remove request: the instance must exist and be `Stopped`.
    /// On success hands back the instance's working directory; the caller
    /// deletes that directory first and calls `remove_finish` only once the
    /// deletion succeeded, so a record is never dropped while its data still
    /// exists on disk. Reads only; no state changes.
    pub fn remove_begin(&self, name: &String) -> (r: Result<String, ClientError>)
        requires
            self.inv(),
        ensures
            ({
                let norm = lower_of(name@);
                &&& (r is Ok <==> has_name(self@, norm) && !record_of(self@, norm).started)
                &&& (r matches Ok(wd) ==> wd@ == work_dir_of(record_of(self@, norm).id as int))
                &&& (r matches Err(e) ==> {
                    &&& (e matches ClientError::NotFound <==> !has_name(self@, norm))
                    &&& (e matches ClientError::StillRunning <==> has_name(self@, norm)
                        && record_of(self@, norm).started)
                    &&& (e matches ClientError::NotFound || e matches ClientError::StillRunning)
                })
            }),
    {
        let norm = lowercase(name);
        match self.registry.get(&norm) {
            None => Err(ClientError::NotFound),
            Some(rec) => {
                if rec.started {
                    Err(ClientError::StillRunning)
                } else {
                    proof {
                        assert(0 <= rec.id);
                    }
                    Ok(work_dir_string(rec.id))
                }
            },
        }
    }

    /// Deletes the record of a `Stopped` instance, re-checking existence and
    /// state in the same atomic call as the deletion. The caller invokes
    /// this only after the instance's working directory has been deleted.
    pub fn remove_finish(&mut self, name: &String) -> (r: Result<(), ClientError>)
        requires
            old(self).inv(),
        ensures
            final(self).inv(),
            final(self).spec_config() == old(self).spec_config(),
            ({
                let norm = lower_of(name@);
                &&& (r is Ok <==> has_name(old(self)@, norm) && !record_of(
                    old(self)@,
                    norm,
                ).started)
                &&& (r is Ok ==> final(self)@ =~= old(self)@.remove(idx_of(old(self)@, norm)))
                &&& (r is Err ==> final(self)@ == old(self)@)
                &&& (r matches Err(e) ==> {
                    &&& (e matches ClientError::NotFound <==> !has_name(old(self)@, norm))
                    &&& (e matches ClientError::StillRunning <==> has_name(old(self)@, norm)
                        && record_of(old(self)@, norm).started)
                    &&& (e matches ClientError::NotFound || e matches ClientError::StillRunning)
                })
            }),
    {
        let norm = lowercase(name);
        match self.registry.get(&norm) {
            None => {
                return Err(ClientError::NotFound);
            },
            Some(rec) => {
                if rec.started {
                    return Err(ClientError::StillRunning);
                }
            },
        }
        let res = self.registry.remove(&norm);
        proof {
            let s_old = old(self)@;
            let gi = idx_of(s_old, norm@);
            assert(self@ == s_old.remove(gi));
            assert forall|k: int|
                0 <= k < self@.len() implies self.config.min_port
                <= #[trigger] self@[k].port < self.config.max_port by {
                if k < gi {
                    assert(self@[k] == s_old[k]);
                } else {
                    assert(self@[k] == s_old[k + 1]);
                }
            }
            if self.config.single_instance {
                assert forall|i: int, j: int|
                    0 <= i < j < self@.len() implies !(#[trigger] self@[i].started
                    && #[trigger] self@[j].started) by {
                    let i0 = if i < gi {
                        i
                    } else {
                        i + 1
                    };
                    let j0 = if j < gi {
                        j
                    } else {
                        j + 1
                    };
                    assert(self@[i] == s_old[i0] && self@[j] == s_old[j0]);
                }
            }
        }
        match res {
            Ok(()) => Ok(()),
            Err(e) => Err(e),
        }
    }

    /// Lists one page of instance summaries, in name order: resolves the
    /// page request over the current record count, then hands back the
    /// records of that page as summaries together with the resolved page
    /// numbers.
    pub fn list(&self, page_number: u64, page_size: u64) -> (r: (Vec<InstanceSummary>, PageInfo))
        requires
            self.inv(),
            1 <= page_size,
        ensures
            r.1.page_count == spec_page_count(self@.len() as int, page_size as int),
            r.1.page_number == spec_clamp_page(page_number as int, r.1.page_count as int),
            1 <= r.1.page_number <= r.1.page_count,
            r.1.limit == page_size,
            r.1.offset == (r.1.page_number - 1) * page_size,
            r.1.offset <= self@.len(),
            r.0@.len() == (if r.1.offset + page_size <= self@.len() {
                page_size as int
            } else {
                self@.len() - r.1.offset
            }),
            forall|k: int|
                0 <= k < r.0@.len() ==> #[trigger] r.0@[k] == summary_of(
                    self@[r.1.offset + k],
                ),
    {
        let total = self.registry.count();
        let info = page(page_number, page_size, total as u64);
        let offset: usize = info.offset as usize;
        let remaining: usize = total - offset;
        let take: usize = if page_size <= remaining as u64 {
            page_size as usize
        } else {
            remaining
        };
        let records = self.registry.list_page(offset, take);
        let n = records.len();
        let mut out: Vec<InstanceSummary> = Vec::new();
        let mut i: usize = 0;
        while i < n
            invariant
                i <= n,
                n == records@.len(),
                records@ =~= self@.subrange(offset as int, offset + n),
                offset + n <= self@.len(),
                out@.len() == i,
                forall|k: int|
                    0 <= k < i ==> #[trigger] out@[k] == summary_of(self@[offset + k]),
            decreases n - i,
        {
            out.push(summarize(&records[i]));
            i += 1;
        }
        (out, info)
    }

    /// Whether some instance is currently running.
    pub fn any_running(&self) -> (r: bool)
        requires
            self.inv(),
        ensures
            r == some_running(self@),
    {
        let n = self.registry.count();
        let mut i: usize = 0;
        let mut found = false;
        while i < n
            invariant
                i <= n,
                n == self@.len(),
                found == exists|k: int| 0 <= k < i && #[trigger] self@[k].started,
            decreases n - i,
        {
            if self.registry.record_at(i).started {
                found = true;
            }
            i += 1;
        }
        found
    }
}

} // verus!
