//! Sources and the actor that drives them.
//!
//! A source emits batches of documents toward the indexer. It is mounted
//! in a thin wrapping actor whose whole job is a loop: initialize the
//! source, then emit batches and send itself the next loop message, until
//! the source reports an exit status; finalize once afterwards. The
//! host's scheduler delivers the messages; the decisions — what to run
//! next, when to stop — are the step functions here.

use vstd::prelude::*;

verus! {

/// An error of source handling.
#[derive(Debug, Clone, PartialEq, Eq)]
pub enum SourceError {
    /// A file source points at a file that does not exist.
    FileDoesNotExist { filepath: String },
    /// A Kafka source was configured but this build carries no Kafka
    /// support.
    KafkaNotSupported,
}

/// Parameters of a file source: an optional path; without one the source
/// reads what the host pipes in.
pub struct FileSourceParams {
    pub filepath: Option<String>,
}

/// Parameters of a Kafka source.
pub struct KafkaSourceParams {
    pub topic: String,
}

/// Parameters of an in-memory source: the documents it will emit and how
/// many go into one batch.
pub struct VecSourceParams {
    pub docs: Vec<String>,
    pub batch_num_docs: usize,
}

/// The kinds of source a configuration can ask for.
pub enum SourceParams {
    File(FileSourceParams),
    Kafka(KafkaSourceParams),
    VecSource(VecSourceParams),
    Void,
}

/// One configured source: its id and its parameters.
pub struct SourceConfig {
    pub source_id: String,
    pub source_params: SourceParams,
}

/// Whether a source configuration is reachable, given the answer of the
/// one probe that needs the host: whether the configured file exists. A
/// file source with a path is reachable exactly when its file exists; a
/// file source without a path, an in-memory source and a void source are
/// always reachable; a Kafka source never is in this build, which carries
/// no Kafka support.
pub open spec fn connectivity_ok(params: SourceParams, file_exists: bool) -> bool {
    match params {
        SourceParams::File(file_params) => match file_params.filepath {
            Some(_) => file_exists,
            None => true,
        },
        SourceParams::Kafka(_) => false,
        SourceParams::VecSource(_) => true,
        SourceParams::Void => true,
    }
}

/// Check that a configured source can be reached before mounting it.
/// Probing the filesystem is the host's business; it answers with
/// `file_exists` for the configured path. The verdict is exactly
/// [`connectivity_ok`], and a failure names the missing file.
pub fn check_source_connectivity(source_config: &SourceConfig, file_exists: bool) -> (r: Result<
    (),
    SourceError,
>)
    ensures
        r is Ok <==> connectivity_ok(source_config.source_params, file_exists),
        (match r {
            Ok(_) => true,
            Err(e) => match source_config.source_params {
                SourceParams::File(file_params) => file_params.filepath matches Some(filepath)
                    && e == SourceError::FileDoesNotExist { filepath },
                SourceParams::Kafka(_) => e == SourceError::KafkaNotSupported,
                _ => false,
            },
        }),
{
    match &source_config.source_params {
        SourceParams::File(file_params) => match &file_params.filepath {
            Some(filepath) => {
                if file_exists {
                    Ok(())
                } else {
                    Err(SourceError::FileDoesNotExist { filepath: filepath.clone() })
                }
            },
            None => Ok(()),
        },
        SourceParams::Kafka(_) => Err(SourceError::KafkaNotSupported),
        SourceParams::VecSource(_) => Ok(()),
        SourceParams::Void => Ok(()),
    }
}

/// The registry of source kinds this build can mount. The factories that
/// build a running source from a configuration are host plumbing; the
/// registry decides which kind names are supported.
pub struct SourceLoader {
    kinds: Vec<String>,
}

impl SourceLoader {
    /// The registered kind names, in registration order.
    pub closed spec fn view(&self) -> Seq<String> {
        self.kinds@
    }

    /// An empty registry.
    pub fn new() -> (loader: SourceLoader)
        ensures
            loader@ =~= Seq::<String>::empty(),
    {
        SourceLoader { kinds: Vec::new() }
    }

    /// Register one source kind.
    pub fn add_source(&mut self, kind: String)
        ensures
            final(self)@ == old(self)@.push(kind),
    {
        self.kinds.push(kind);
    }

    /// Whether a source kind of this name is supported.
    pub fn is_supported(&self, kind: &String) -> (r: bool)
        ensures
            r == exists|i: int| 0 <= i < self@.len() && self@[i]@ == kind@,
    {
        let mut i: usize = 0;
        while i < self.kinds.len()
            invariant
                0 <= i <= self@.len(),
                forall|j: int| 0 <= j < i ==> self@[j]@ != kind@,
            decreases self@.len() - i,
        {
            if self.kinds[i].eq(kind) {
                return true;
            }
            i = i + 1;
        }
        false
    }
}

/// The source kinds this build supports: file, vec and void sources, in
/// that order. Kafka is absent: this build carries no Kafka support.
pub fn quickwit_supported_sources() -> (loader: SourceLoader)
    ensures
        loader@.len() == 3,
        loader@[0]@ == "file"@,
        loader@[1]@ == "vec"@,
        loader@[2]@ == "void"@,
{
    let mut source_factory = SourceLoader::new();
    source_factory.add_source("file".to_owned());
    source_factory.add_source("vec".to_owned());
    source_factory.add_source("void".to_owned());
    source_factory
}

/// One batch of documents on its way to the indexer.
pub struct IndexerMessage {
    pub docs: Vec<String>,
}

/// How an actor run ends.
#[derive(Debug, Clone, PartialEq, Eq)]
pub enum ActorExitStatus {
    Success,
    Quit,
    Killed,
    Failure { reason: String },
}

/// A source emits batches of documents through an actor. Its methods
/// mimic an actor's: `initialize` runs before the first batch,
/// `emit_batches` is the main loop body and should return fast, and
/// `finalize` runs once after the actor terminates.
pub trait Source: Sized {
    /// Called once before any batch is emitted.
    fn initialize(&mut self) -> Result<(), ActorExitStatus>;

    /// Emit zero or more batches into the sink; an `Err` ends the loop
    /// with that exit status.
    fn emit_batches(&mut self, batch_sink: &mut Vec<IndexerMessage>) -> Result<
        (),
        ActorExitStatus,
    >;

    /// Called once after the actor terminates.
    fn finalize(&mut self, exit_status: &ActorExitStatus) -> Result<(), SourceError>;

    /// A name identifying the type of source.
    fn name(&self) -> String;

    /// An observable state for the actor; the host renders it.
    fn observable_state(&self) -> String;
}

/// The goal of this struct is simply to prevent the construction of a
/// Loop object outside this module.
struct PrivateToken;

/// Message used for the SourceActor: each processed Loop schedules the
/// next one, so the actor keeps emitting until the source ends the run.
pub struct Loop(PrivateToken);

/// The thin wrapper executing a source as an actor: it initializes the
/// source, then answers every [`Loop`] message by emitting batches and
/// scheduling the next [`Loop`].
pub struct SourceActor<S: Source> {
    pub source: S,
    pub batch_sink: Vec<IndexerMessage>,
}

impl<S: Source> SourceActor<S> {
    /// The actor's name is its source's.
    pub fn name(&self) -> String {
        self.source.name()
    }

    /// The actor's observable state is its source's.
    pub fn observable_state(&self) -> String {
        self.source.observable_state()
    }

    /// Initialize the source and schedule the first loop message. An exit
    /// status from the source ends the run before any batch.
    pub fn initialize(&mut self) -> Result<Loop, ActorExitStatus> {
        match self.source.initialize() {
            Ok(_) => Ok(Loop(PrivateToken)),
            Err(exit_status) => Err(exit_status),
        }
    }

    /// Process one loop message: emit batches, then schedule the next
    /// loop. The host delivers the returned message back to this actor,
    /// which is what makes the run a loop.
    pub fn process_message(&mut self, _message: Loop) -> Result<Loop, ActorExitStatus> {
        match self.source.emit_batches(&mut self.batch_sink) {
            Ok(_) => Ok(Loop(PrivateToken)),
            Err(exit_status) => Err(exit_status),
        }
    }

    /// Finalize the source once, with the exit status the run ended in.
    pub fn finalize(&mut self, exit_status: &ActorExitStatus) -> Result<(), SourceError> {
        self.source.finalize(exit_status)
    }
}

} // verus!
