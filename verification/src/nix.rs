//! The store-replication backend: its interface, the configuration of the
//! real command-line backend, and the resolution of a derivation's
//! designated output.

use vstd::prelude::*;
use vstd::string::StringExecFns;

use crate::{str_eq, DrvFile, Error, StorePath};

verus! {

/// One operation asked of the store backend, as a mathematical value:
/// either the copy of a store path or the handling of a built derivation.
pub enum Call {
    CopyStorePath(Seq<char>),
    CopyDrvOutput(Seq<char>),
}

/// The interface of the store-replication backend the worker drives.
///
/// A backend carries the canonical identity of its destination, a ghost
/// log of the operations asked of it (oldest first; each method appends
/// exactly one entry whatever its outcome, so the log counts calls
/// exactly), and its own say on which operations succeed: `op_ok` names
/// the operations it lets succeed and `op_err` the error it reports for
/// the others, and each method's result obeys them.  Both are fixed for
/// the lifetime of a run: no call changes them.
pub trait CopyCommand: Sized {
    /// The canonical identity of the configured destination.
    spec fn dest(&self) -> Seq<char>;

    /// The operations performed so far, oldest first.
    spec fn calls(&self) -> Seq<Call>;

    /// Whether the backend lets the given operation succeed.
    spec fn op_ok(&self, c: Call) -> bool;

    /// The error the backend reports for an operation it refuses.
    spec fn op_err(&self, c: Call) -> Seq<char>;

    /// Replicate the given store path to the destination.
    fn store_path(&mut self, path: &StorePath) -> (r: Result<(), Error>)
        ensures
            final(self).dest() == old(self).dest(),
            final(self).calls() == old(self).calls().push(Call::CopyStorePath(path@)),
            forall|c: Call| final(self).op_ok(c) == old(self).op_ok(c),
            forall|c: Call| final(self).op_err(c) == old(self).op_err(c),
            r is Ok <==> old(self).op_ok(Call::CopyStorePath(path@)),
            r is Err ==> r->Err_0@ == old(self).op_err(Call::CopyStorePath(path@)),
    ;

    /// Resolve the derivation's designated output and replicate it.
    fn drv_output(&mut self, drv: &DrvFile) -> (r: Result<(), Error>)
        ensures
            final(self).dest() == old(self).dest(),
            final(self).calls() == old(self).calls().push(Call::CopyDrvOutput(drv@)),
            forall|c: Call| final(self).op_ok(c) == old(self).op_ok(c),
            forall|c: Call| final(self).op_err(c) == old(self).op_err(c),
            r is Ok <==> old(self).op_ok(Call::CopyDrvOutput(drv@)),
            r is Err ==> r->Err_0@ == old(self).op_err(Call::CopyDrvOutput(drv@)),
    ;

    /// The destination as text.
    fn to(&self) -> (r: String)
        ensures
            r@ == self.dest(),
    ;
}

/// The compression applied to what is copied to the destination.
#[derive(Debug, PartialEq, Eq, Clone, Copy)]
pub enum Compression {
    Uncompressed,
    Xz,
    Bzip2,
    Gzip,
    Zstd,
}

impl Compression {
    /// The name under which a compression choice is written, in snake case.
    pub open spec fn spec_name(self) -> Seq<char> {
        match self {
            Compression::Uncompressed => "none"@,
            Compression::Xz => "xz"@,
            Compression::Bzip2 => "bzip2"@,
            Compression::Gzip => "gzip"@,
            Compression::Zstd => "zstd"@,
        }
    }

    /// The name under which a compression choice is written, in snake case.
    pub fn name(&self) -> (r: &'static str)
        ensures
            r@ == self.spec_name(),
    {
        match self {
            Compression::Uncompressed => "none",
            Compression::Xz => "xz",
            Compression::Bzip2 => "bzip2",
            Compression::Gzip => "gzip",
            Compression::Zstd => "zstd",
        }
    }
}

/// The configuration of the command-line backend: where to copy to and
/// how.  The invocation itself is outside work; what stands here is the
/// exact argument lists it is made of.
pub struct CliProcess {
    dry_run: bool,
    to: String,
    compression: Compression,
    secret_key: String,
}

impl CliProcess {
    /// Whether the backend only pretends to copy.
    pub closed spec fn spec_dry_run(&self) -> bool {
        self.dry_run
    }

    /// The destination the backend copies to.
    pub closed spec fn spec_to(&self) -> Seq<char> {
        self.to@
    }

    /// The configured compression.
    pub closed spec fn spec_compression(&self) -> Compression {
        self.compression
    }

    /// The configured signing key.
    pub closed spec fn spec_secret_key(&self) -> Seq<char> {
        self.secret_key@
    }

    pub fn new(dry_run: bool, to: &str, compression: &Compression, secret_key: &str) -> (r: Self)
        ensures
            r.spec_dry_run() == dry_run,
            r.spec_to() == to@,
            r.spec_compression() == *compression,
            r.spec_secret_key() == secret_key@,
    {
        Self {
            dry_run,
            to: to.to_owned(),
            compression: *compression,
            secret_key: secret_key.to_owned(),
        }
    }

    /// The destination as text.
    pub fn to(&self) -> (r: String)
        ensures
            r@ == self.spec_to(),
    {
        self.to.clone()
    }

    /// Whether the backend only pretends to copy.
    pub fn is_dry_run(&self) -> (r: bool)
        ensures
            r == self.spec_dry_run(),
    {
        self.dry_run
    }

    /// The destination argument of a copy invocation, with the compression
    /// and signing key appended as query parameters.
    pub fn copy_target(&self) -> (r: String)
        ensures
            r@ == self.spec_to() + "?compression="@ + self.spec_compression().spec_name()
                + "&secret-key="@ + self.spec_secret_key(),
    {
        let mut out = self.to.clone();
        out.append("?compression=");
        out.append(self.compression.name());
        out.append("&secret-key=");
        out.append(self.secret_key.as_str());
        out
    }

    /// The whole argument list of the invocation copying one store path.
    pub fn copy_args(&self, path: &StorePath) -> (r: Vec<String>)
        ensures
            r@.len() == 4,
            r@[0]@ == "copy"@,
            r@[1]@ == "--to"@,
            r@[2]@ == self.spec_to() + "?compression="@ + self.spec_compression().spec_name()
                + "&secret-key="@ + self.spec_secret_key(),
            r@[3]@ == path@,
    {
        let mut args: Vec<String> = Vec::new();
        args.push("copy".to_owned());
        args.push("--to".to_owned());
        args.push(self.copy_target());
        args.push(path.as_str().to_owned());
        args
    }

    /// The whole argument list of the invocation fetching a derivation's
    /// build description.
    pub fn show_derivation_args(&self, drv: &DrvFile) -> (r: Vec<String>)
        ensures
            r@.len() == 2,
            r@[0]@ == "show-derivation"@,
            r@[1]@ == drv@,
    {
        let mut args: Vec<String> = Vec::new();
        args.push("show-derivation".to_owned());
        args.push(drv.as_str().to_owned());
        args
    }
}

/// One named output of a derivation, with the store path registered under
/// that name.
pub struct DerivationOutput {
    pub name: String,
    pub path: StorePath,
}

/// The build description of one derivation: its identifier and its named
/// outputs.
pub struct DerivationInfo {
    pub name: String,
    pub outputs: Vec<DerivationOutput>,
}

/// The error reported when a build description holds no entry for the
/// derivation looked up.
pub open spec fn missing_drv_msg() -> Seq<char> {
    "Couldn't find derivation in the file"@
}

/// The error reported when a derivation's entry holds no output named
/// `out`.
pub open spec fn missing_out_msg() -> Seq<char> {
    "Couldn't find 'out' attr of derivation"@
}

/// The first position at or after `i` whose entry is named `drv`;
/// `d.len()` when there is none.
pub open spec fn drv_index_from(d: Seq<DerivationInfo>, drv: Seq<char>, i: int) -> int
    decreases d.len() - i,
    when 0 <= i
{
    if i >= d.len() {
        d.len() as int
    } else if d[i].name@ == drv {
        i
    } else {
        drv_index_from(d, drv, i + 1)
    }
}

/// The first position at or after `i` whose output is named `out`;
/// `outs.len()` when there is none.
pub open spec fn out_index_from(outs: Seq<DerivationOutput>, i: int) -> int
    decreases outs.len() - i,
    when 0 <= i
{
    if i >= outs.len() {
        outs.len() as int
    } else if outs[i].name@ == "out"@ {
        i
    } else {
        out_index_from(outs, i + 1)
    }
}

/// What resolving a derivation against a build description yields: the
/// store path registered under its `out` output, or which of the two
/// lookups failed.  Entry and output names come from a JSON object's
/// keys and are therefore expected unique; should duplicates appear, the
/// first entry with the name decides, by design.
pub open spec fn spec_resolve(d: Seq<DerivationInfo>, drv: Seq<char>) -> Result<Seq<char>, Seq<char>> {
    let i = drv_index_from(d, drv, 0);
    if i == d.len() {
        Err(missing_drv_msg())
    } else {
        let outs = d[i].outputs@;
        let j = out_index_from(outs, 0);
        if j == outs.len() {
            Err(missing_out_msg())
        } else {
            Ok(outs[j].path@)
        }
    }
}

proof fn lemma_drv_index(d: Seq<DerivationInfo>, drv: Seq<char>, i: int)
    requires
        0 <= i <= d.len(),
    ensures
        i <= drv_index_from(d, drv, i) <= d.len(),
        drv_index_from(d, drv, i) < d.len() ==> d[drv_index_from(d, drv, i)].name@ == drv,
    decreases d.len() - i,
{
    if i >= d.len() {
    } else if d[i].name@ == drv {
    } else {
        lemma_drv_index(d, drv, i + 1);
    }
}

proof fn lemma_out_index(outs: Seq<DerivationOutput>, i: int)
    requires
        0 <= i <= outs.len(),
    ensures
        i <= out_index_from(outs, i) <= outs.len(),
        out_index_from(outs, i) < outs.len() ==> outs[out_index_from(outs, i)].name@ == "out"@,
    decreases outs.len() - i,
{
    if i >= outs.len() {
    } else if outs[i].name@ == "out"@ {
    } else {
        lemma_out_index(outs, i + 1);
    }
}

/// Resolve a derivation against its build description: hand back the store
/// path registered under the `out` output of the first entry named after
/// the derivation, or say which of the two lookups failed.
pub fn drv_output_path(derivation: &Vec<DerivationInfo>, drv: &DrvFile) -> (r: Result<
    StorePath,
    Error,
>)
    ensures
        r is Ok <==> spec_resolve(derivation@, drv@) is Ok,
        r is Ok ==> r->Ok_0@ == spec_resolve(derivation@, drv@)->Ok_0,
        r is Err ==> r->Err_0@ == spec_resolve(derivation@, drv@)->Err_0,
{
    let n = derivation.len();
    let mut i: usize = 0;
    loop
        invariant
            n == derivation@.len(),
            0 <= i <= n,
            drv_index_from(derivation@, drv@, 0) == drv_index_from(derivation@, drv@, i as int),
        decreases n - i,
    {
        if i == n {
            return Err(Error::new("Couldn't find derivation in the file"));
        }
        if str_eq(derivation[i].name.as_str(), drv.as_str()) {
            proof {
                lemma_out_index(derivation@[i as int].outputs@, 0);
            }
            let outs = &derivation[i].outputs;
            let m = outs.len();
            let mut j: usize = 0;
            loop
                invariant
                    0 <= i < n,
                    n == derivation@.len(),
                    m == derivation@[i as int].outputs@.len(),
                    outs == &derivation@[i as int].outputs,
                    0 <= j <= m,
                    drv_index_from(derivation@, drv@, 0) == i as int,
                    out_index_from(derivation@[i as int].outputs@, 0) == out_index_from(
                        derivation@[i as int].outputs@,
                        j as int,
                    ),
                decreases m - j,
            {
                if j == m {
                    return Err(Error::new("Couldn't find 'out' attr of derivation"));
                }
                if str_eq(outs[j].name.as_str(), "out") {
                    let found = StorePath::from_text(outs[j].path.as_str().to_owned());
                    return Ok(found);
                }
                j += 1;
            }
        }
        i += 1;
    }
}

/// What follows a resolution: a successful one leads to exactly one copy
/// of the resolved path, a failed one aborts with its error and copies
/// nothing.
pub fn copy_resolved<B: CopyCommand>(resolution: Result<StorePath, Error>, backend: &mut B) -> (r:
    Result<(), Error>)
    ensures
        final(backend).dest() == old(backend).dest(),
        resolution is Ok ==> final(backend).calls() == old(backend).calls().push(
            Call::CopyStorePath(resolution->Ok_0@),
        ),
        resolution is Err ==> final(backend).calls() == old(backend).calls() && r is Err
            && r->Err_0@ == resolution->Err_0@,
{
    match resolution {
        Ok(path) => backend.store_path(&path),
        Err(e) => Err(e),
    }
}

/// An operation as recorded by the in-memory backend.
#[derive(Debug, PartialEq)]
pub enum CallRecord {
    CopyStorePath(StorePath),
    CopyDrvOutput(DrvFile),
}

impl View for CallRecord {
    type V = Call;

    open spec fn view(&self) -> Call {
        match self {
            CallRecord::CopyStorePath(path) => Call::CopyStorePath(path@),
            CallRecord::CopyDrvOutput(drv) => Call::CopyDrvOutput(drv@),
        }
    }
}

/// An in-memory backend that records the operations asked of it: the
/// test double of the store.  It lets every operation succeed, or, when
/// built refusing, reports one fixed error for every operation — either
/// way each operation asked is recorded.
pub struct RecordingBackend {
    destination: String,
    refusal: Option<String>,
    records: Vec<CallRecord>,
}

impl RecordingBackend {
    /// A recording backend that lets every operation succeed.
    pub fn new(destination: &str) -> (r: Self)
        ensures
            r.dest() == destination@,
            r.calls() == Seq::<Call>::empty(),
            forall|c: Call| r.op_ok(c),
    {
        let r = RecordingBackend {
            destination: destination.to_owned(),
            refusal: None,
            records: Vec::new(),
        };
        proof {
            assert(r.calls() =~= Seq::<Call>::empty());
        }
        r
    }

    /// A recording backend that refuses every operation with the given
    /// error.
    pub fn refusing(destination: &str, message: &str) -> (r: Self)
        ensures
            r.dest() == destination@,
            r.calls() == Seq::<Call>::empty(),
            forall|c: Call| !r.op_ok(c) && r.op_err(c) == message@,
    {
        let r = RecordingBackend {
            destination: destination.to_owned(),
            refusal: Some(message.to_owned()),
            records: Vec::new(),
        };
        proof {
            assert(r.calls() =~= Seq::<Call>::empty());
        }
        r
    }

    /// The operations recorded so far, oldest first.
    pub fn records(&self) -> (r: &Vec<CallRecord>)
        ensures
            r@.len() == self.calls().len(),
            forall|i: int| 0 <= i < r@.len() ==> r@[i]@ == self.calls()[i],
    {
        &self.records
    }
}

impl CopyCommand for RecordingBackend {
    closed spec fn dest(&self) -> Seq<char> {
        self.destination@
    }

    closed spec fn calls(&self) -> Seq<Call> {
        self.records@.map(|i: int, c: CallRecord| c@)
    }

    closed spec fn op_ok(&self, c: Call) -> bool {
        self.refusal is None
    }

    closed spec fn op_err(&self, c: Call) -> Seq<char> {
        match self.refusal {
            Some(message) => message@,
            None => Seq::<char>::empty(),
        }
    }

    fn store_path(&mut self, path: &StorePath) -> (r: Result<(), Error>) {
        let record = CallRecord::CopyStorePath(StorePath::from_text(path.as_str().to_owned()));
        self.records.push(record);
        proof {
            assert(self.calls() =~= old(self).calls().push(Call::CopyStorePath(path@)));
        }
        match &self.refusal {
            None => Ok(()),
            Some(message) => Err(Error::new(message.as_str())),
        }
    }

    fn drv_output(&mut self, drv: &DrvFile) -> (r: Result<(), Error>) {
        let record = CallRecord::CopyDrvOutput(DrvFile::from_text(drv.as_str().to_owned()));
        self.records.push(record);
        proof {
            assert(self.calls() =~= old(self).calls().push(Call::CopyDrvOutput(drv@)));
        }
        match &self.refusal {
            None => Ok(()),
            Some(message) => Err(Error::new(message.as_str())),
        }
    }

    fn to(&self) -> (r: String) {
        self.destination.clone()
    }
}

} // verus!
