use quickwit_leaf::source::{
    check_source_connectivity, quickwit_supported_sources, ActorExitStatus, FileSourceParams,
    IndexerMessage, KafkaSourceParams, Source, SourceActor, SourceConfig, SourceError,
    SourceParams, VecSourceParams,
};

fn void_config() -> SourceConfig {
    SourceConfig { source_id: "void".to_string(), source_params: SourceParams::Void }
}

fn vec_config() -> SourceConfig {
    SourceConfig {
        source_id: "vec".to_string(),
        source_params: SourceParams::VecSource(VecSourceParams {
            docs: vec![],
            batch_num_docs: 0,
        }),
    }
}

fn file_config(filepath: &str) -> SourceConfig {
    SourceConfig {
        source_id: "file".to_string(),
        source_params: SourceParams::File(FileSourceParams {
            filepath: Some(filepath.to_string()),
        }),
    }
}

#[test]
fn test_check_source_connectivity() {
    // the filesystem probe is the host's; its answer comes in as a value
    check_source_connectivity(&void_config(), false).unwrap();
    check_source_connectivity(&vec_config(), false).unwrap();
    assert!(check_source_connectivity(&file_config("file-does-not-exist.json"), false).is_err());
    assert!(check_source_connectivity(&file_config("data/test_corpus.json"), true).is_ok());
}

#[test]
fn test_check_source_connectivity_errors() {
    let err = check_source_connectivity(&file_config("gone.json"), false).unwrap_err();
    assert_eq!(err, SourceError::FileDoesNotExist { filepath: "gone.json".to_string() });
    let kafka = SourceConfig {
        source_id: "kafka".to_string(),
        source_params: SourceParams::Kafka(KafkaSourceParams { topic: "t".to_string() }),
    };
    assert_eq!(
        check_source_connectivity(&kafka, true).unwrap_err(),
        SourceError::KafkaNotSupported
    );
    // a file source without a path reads from the host: always reachable
    let pathless = SourceConfig {
        source_id: "file".to_string(),
        source_params: SourceParams::File(FileSourceParams { filepath: None }),
    };
    check_source_connectivity(&pathless, false).unwrap();
}

#[test]
fn test_quickwit_supported_sources() {
    let loader = quickwit_supported_sources();
    assert!(loader.is_supported(&"file".to_string()));
    assert!(loader.is_supported(&"vec".to_string()));
    assert!(loader.is_supported(&"void".to_string()));
    assert!(!loader.is_supported(&"kafka".to_string()));
}

/// A source that emits one single-doc batch per loop turn, three in all,
/// then ends the run successfully.
struct CountingSource {
    emitted: usize,
}

impl Source for CountingSource {
    fn initialize(&mut self) -> Result<(), ActorExitStatus> {
        Ok(())
    }

    fn emit_batches(
        &mut self,
        batch_sink: &mut Vec<IndexerMessage>,
    ) -> Result<(), ActorExitStatus> {
        if self.emitted == 3 {
            return Err(ActorExitStatus::Success);
        }
        batch_sink.push(IndexerMessage { docs: vec![format!("doc-{}", self.emitted)] });
        self.emitted += 1;
        Ok(())
    }

    fn finalize(&mut self, _exit_status: &ActorExitStatus) -> Result<(), SourceError> {
        Ok(())
    }

    fn name(&self) -> String {
        "counting".to_string()
    }

    fn observable_state(&self) -> String {
        format!("{{\"emitted\": {}}}", self.emitted)
    }
}

#[test]
fn test_source_actor_loop() {
    let mut actor = SourceActor { source: CountingSource { emitted: 0 }, batch_sink: vec![] };
    assert_eq!(actor.name(), "counting");
    // the host's scheduler: deliver each returned Loop message back
    let mut message = actor.initialize().unwrap();
    let exit_status = loop {
        match actor.process_message(message) {
            Ok(next) => message = next,
            Err(exit_status) => break exit_status,
        }
    };
    assert_eq!(exit_status, ActorExitStatus::Success);
    actor.finalize(&exit_status).unwrap();
    assert_eq!(actor.batch_sink.len(), 3);
    assert_eq!(actor.batch_sink[0].docs, vec!["doc-0".to_string()]);
    assert_eq!(actor.observable_state(), "{\"emitted\": 3}");
}
