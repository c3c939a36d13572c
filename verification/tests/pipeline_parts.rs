use codebase_index::{
    chunk_entity, embeddable_text, file_current, is_stale, jobs_for_entity, needs_reextract,
    parse_command, populate, submit_job, Command, EmbeddingJob, JobQueue, LocalEntry,
    PopulateAction, ProgressCounters, SubmitOutcome, TokenBucket, VectorStore, MAX_CHUNK_CHARS,
};

fn job(tag: &str) -> EmbeddingJob {
    EmbeddingJob { chunk: format!("chunk {tag}"), entity_id: format!("entity {tag}"), port: 6969 }
}

#[test]
fn full_queue_defers_instead_of_blocking() {
    let mut q = JobQueue::new(2);
    assert_eq!(submit_job(&mut q, job("a")), SubmitOutcome::Enqueued);
    assert_eq!(submit_job(&mut q, job("b")), SubmitOutcome::Enqueued);
    // the queue is full: the job comes back unchanged for an async send
    assert_eq!(submit_job(&mut q, job("c")), SubmitOutcome::Deferred { job: job("c") });
    assert_eq!(q.jobs.len(), 2);
}

#[test]
fn queue_hands_jobs_out_in_order() {
    let mut q = JobQueue::new(3);
    assert!(q.try_enqueue(job("a")));
    assert!(q.try_enqueue(job("b")));
    assert_eq!(q.dequeue(), Some(job("a")));
    assert_eq!(q.dequeue(), Some(job("b")));
    assert_eq!(q.dequeue(), None);
}

#[test]
fn reembedding_overwrites_with_the_later_vector() {
    let mut store: VectorStore<Vec<f64>> = VectorStore::new();
    store.attach_vector(&"e1".to_string(), vec![1.0, 2.0]);
    store.attach_vector(&"e2".to_string(), vec![9.0]);
    store.attach_vector(&"e1".to_string(), vec![3.0, 4.0]);
    // exactly one vector per entity, the later write winning
    assert_eq!(store.entries.len(), 2);
    let e1: Vec<&(String, Vec<f64>)> =
        store.entries.iter().filter(|p| p.0 == "e1").collect();
    assert_eq!(e1.len(), 1);
    assert_eq!(e1[0].1, vec![3.0, 4.0]);
    let e2: Vec<&(String, Vec<f64>)> =
        store.entries.iter().filter(|p| p.0 == "e2").collect();
    assert_eq!(e2[0].1, vec![9.0]);
}

#[test]
fn one_job_per_chunk_against_the_same_entity() {
    let chunks = vec!["a".to_string(), "b".to_string(), "c".to_string()];
    let jobs = jobs_for_entity(&chunks, &"e7".to_string(), 7070);
    assert_eq!(jobs.len(), 3);
    for (j, c) in jobs.iter().zip(chunks.iter()) {
        assert_eq!(&j.chunk, c);
        assert_eq!(j.entity_id, "e7");
        assert_eq!(j.port, 7070);
    }
}

#[test]
fn blank_text_is_never_embedded() {
    assert!(!embeddable_text(""));
    assert!(!embeddable_text(" \t\r\n  "));
    assert!(embeddable_text("fn main() {}"));
    assert!(embeddable_text("  x  "));
}

#[test]
fn short_text_is_one_unchanged_chunk() {
    let text = "def f():\n    return 1\n".to_string();
    let chunks = chunk_entity(&text);
    assert_eq!(chunks, vec![text]);
}

#[test]
fn long_text_is_split_into_bounded_chunks() {
    let mut text = String::new();
    for i in 0..400 {
        text.push_str(&format!("line number {i} of a long source file.\n\n"));
    }
    assert!(text.chars().count() > MAX_CHUNK_CHARS);
    let chunks = chunk_entity(&text);
    assert!(chunks.len() > 1);
    for c in &chunks {
        assert!(c.chars().count() <= MAX_CHUNK_CHARS);
    }
}

#[test]
fn chunking_never_yields_zero_chunks() {
    assert_eq!(chunk_entity(&String::new()).len(), 1);
    assert_eq!(chunk_entity(&"x".to_string()).len(), 1);
}

#[test]
fn staleness_is_a_strict_threshold_on_the_difference() {
    assert!(!is_stale(60, 60, 5));
    assert!(!is_stale(65, 60, 5));
    assert!(is_stale(66, 60, 5));
    assert!(!is_stale(10, 60, 5)); // older than extraction: never stale
    assert!(is_stale(i64::MAX, i64::MIN, 0)); // no overflow on extreme inputs
}

#[test]
fn unknown_times_force_reextraction() {
    assert!(needs_reextract(None, Some(60), 5));
    assert!(needs_reextract(Some(60), None, 5));
    assert!(!needs_reextract(Some(62), Some(60), 5));
}

#[test]
fn extracted_at_strings_are_read_as_rfc3339() {
    // 1970-01-01T00:01:00+00:00 is 60 s past the epoch
    let at = "1970-01-01T00:01:00+00:00".to_string();
    assert!(file_current(Some(62), &at, 5));
    assert!(!file_current(Some(70), &at, 5));
    // an offset shifts the instant: 01:01 at +01:00 is also 60 s past
    let offset = "1970-01-01T01:01:00+01:00".to_string();
    assert!(file_current(Some(62), &offset, 5));
}

#[test]
fn bucket_admits_a_full_burst_then_refuses() {
    let mut b = TokenBucket::new(60, 0);
    for _ in 0..60 {
        assert!(b.try_acquire(0));
    }
    assert!(!b.try_acquire(0));
    // one second of refill at 60 per minute is exactly one token
    assert!(b.try_acquire(1000));
    assert!(!b.try_acquire(1000));
}

#[test]
fn bucket_never_stores_more_than_a_minute_of_tokens() {
    let mut b = TokenBucket::new(2, 0);
    assert!(b.try_acquire(0));
    assert!(b.try_acquire(0));
    assert!(!b.try_acquire(0));
    // an hour idle still refills only to the burst capacity
    assert!(b.try_acquire(3_600_000));
    assert!(b.try_acquire(3_600_000));
    assert!(!b.try_acquire(3_600_000));
}

#[test]
fn quiescence_needs_no_active_work_and_all_jobs_done() {
    let mut c = ProgressCounters::new();
    assert!(c.is_quiescent());
    c.begin_work();
    assert!(!c.is_quiescent());
    c.job_queued();
    c.add_chunks(1);
    c.end_work();
    assert!(!c.is_quiescent()); // one embedding outstanding
    assert_eq!(c.outstanding_embeddings(), 1);
    c.job_completed();
    assert!(c.is_quiescent());
    assert_eq!(c.total_chunks, 1);
    c.reset();
    assert_eq!(c.total_chunks, 0);
    assert!(c.is_quiescent());
}

#[test]
fn menu_input_parses_to_commands() {
    assert_eq!(parse_command(&"1".to_string()), Some(Command::Ingest));
    assert_eq!(parse_command(&"2".to_string()), Some(Command::Update));
    assert_eq!(parse_command(&"3".to_string()), Some(Command::Exit));
    assert_eq!(parse_command(&"4".to_string()), None);
    assert_eq!(parse_command(&"".to_string()), None);
}

#[test]
fn populate_plans_folders_and_files_by_level() {
    let entries = vec![
        LocalEntry { name: "src".to_string(), is_dir: true, mtime_secs: None },
        LocalEntry { name: "README.md".to_string(), is_dir: false, mtime_secs: Some(7) },
    ];
    let top = populate(&entries, true);
    assert_eq!(
        top,
        vec![
            PopulateAction::CreateFolder { name: "src".to_string(), is_super: true },
            PopulateAction::IngestFile { name: "README.md".to_string() },
        ]
    );
    let nested = populate(&entries, false);
    assert_eq!(
        nested[0],
        PopulateAction::CreateFolder { name: "src".to_string(), is_super: false }
    );
}

#[test]
fn text_exactly_at_the_chunk_bound_stays_whole() {
    let text: String = "a".repeat(MAX_CHUNK_CHARS);
    let chunks = chunk_entity(&text);
    assert_eq!(chunks, vec![text]);
}
