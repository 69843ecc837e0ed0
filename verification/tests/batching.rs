use compute_embeddings::batch::schedule;
use compute_embeddings::document::Document;
use compute_embeddings::json::JsonValue;

fn batching_numbered_docs(n: usize) -> Vec<Document> {
    (0..n)
        .map(|i| Document {
            fields: vec![("n".to_string(), JsonValue::Number(format!("{}", i)))],
        })
        .collect()
}

fn batching_doc_number(doc: &Document) -> String {
    match &doc.fields[0].1 {
        JsonValue::Number(s) => s.clone(),
        other => panic!("expected a number field, got {:?}", other),
    }
}

#[test]
fn schedule_partitions_into_full_batches_and_a_remainder() {
    let batches = schedule(batching_numbered_docs(10), 4);
    let lens: Vec<usize> = batches.iter().map(|b| b.len()).collect();
    assert_eq!(lens, vec![4, 4, 2]);
}

#[test]
fn schedule_concatenation_reconstructs_the_indexed_input() {
    for size in 1..=6usize {
        let batches = schedule(batching_numbered_docs(10), size);
        assert_eq!(batches.len(), 10usize.div_ceil(size));
        let mut seen: Vec<(usize, String)> = Vec::new();
        for batch in &batches {
            for (idx, doc) in batch {
                seen.push((*idx, batching_doc_number(doc)));
            }
        }
        let expected: Vec<(usize, String)> = (0..10).map(|i| (i, format!("{}", i))).collect();
        assert_eq!(seen, expected);
    }
}

#[test]
fn schedule_only_last_batch_may_be_short() {
    let batches = schedule(batching_numbered_docs(9), 2);
    assert_eq!(batches.len(), 5);
    for batch in &batches[..4] {
        assert_eq!(batch.len(), 2);
    }
    assert_eq!(batches[4].len(), 1);
}

#[test]
fn schedule_batch_larger_than_input_yields_one_batch() {
    let batches = schedule(batching_numbered_docs(3), 10);
    assert_eq!(batches.len(), 1);
    assert_eq!(batches[0].len(), 3);
}

#[test]
fn schedule_of_nothing_is_no_batches() {
    let batches = schedule(Vec::new(), 4);
    assert!(batches.is_empty());
}

#[test]
fn schedule_size_one_gives_singleton_batches() {
    let batches = schedule(batching_numbered_docs(3), 1);
    assert_eq!(batches.len(), 3);
    for (b, batch) in batches.iter().enumerate() {
        assert_eq!(batch.len(), 1);
        assert_eq!(batch[0].0, b);
    }
}
