use compute_embeddings::batch::schedule;
use compute_embeddings::document::Document;
use compute_embeddings::json::JsonValue;
use compute_embeddings::output::{
    assemble, render, render_augmented, render_points, EmbeddedDocument, OutputStyle,
    RenderedOutput, Vector,
};

fn render_doc(label: &str) -> Document {
    Document {
        fields: vec![
            ("name".to_string(), JsonValue::Text(label.to_string())),
            ("stock".to_string(), JsonValue::Number("3".to_string())),
        ],
    }
}

fn render_vector(values: &[f32]) -> Vector {
    Vector {
        dims: values.iter().map(|v| v.to_bits()).collect(),
    }
}

fn render_entries() -> Vec<EmbeddedDocument> {
    vec![
        EmbeddedDocument {
            index: 0,
            document: render_doc("first"),
            vector: render_vector(&[0.05, 0.61]),
        },
        EmbeddedDocument {
            index: 1,
            document: render_doc("second"),
            vector: render_vector(&[0.76, 0.74]),
        },
    ]
}

#[test]
fn augmented_documents_keep_every_field_and_gain_one_vector() {
    let out = render_augmented(render_entries());
    assert_eq!(out.len(), 2);
    assert_eq!(out[0].fields, render_doc("first").fields);
    assert_eq!(out[1].fields, render_doc("second").fields);
    assert_eq!(out[0].vector, render_vector(&[0.05, 0.61]));
    assert_eq!(out[1].vector, render_vector(&[0.76, 0.74]));
}

#[test]
fn points_carry_input_position_vector_and_vector_free_payload() {
    let out = render_points(render_entries());
    assert_eq!(out.points.len(), 2);
    assert_eq!(out.points[0].id, 0);
    assert_eq!(out.points[1].id, 1);
    assert_eq!(out.points[0].vector, render_vector(&[0.05, 0.61]));
    assert_eq!(out.points[0].payload, render_doc("first"));
    assert_eq!(out.points[1].payload, render_doc("second"));
}

#[test]
fn assemble_zips_batches_with_their_vectors_in_order() {
    let batches = vec![
        vec![(0usize, render_doc("a")), (1usize, render_doc("b"))],
        vec![(2usize, render_doc("c"))],
    ];
    let vectors = vec![
        vec![render_vector(&[1.0]), render_vector(&[2.0])],
        vec![render_vector(&[3.0])],
    ];
    let entries = assemble(batches, vectors);
    assert_eq!(entries.len(), 3);
    assert_eq!(entries[0].index, 0);
    assert_eq!(entries[1].index, 1);
    assert_eq!(entries[2].index, 2);
    assert_eq!(entries[0].document, render_doc("a"));
    assert_eq!(entries[2].document, render_doc("c"));
    assert_eq!(entries[1].vector, render_vector(&[2.0]));
    assert_eq!(entries[2].vector, render_vector(&[3.0]));
}

#[test]
fn render_dispatches_on_the_output_style() {
    match render(OutputStyle::AugmentedDocument, render_entries()) {
        RenderedOutput::Documents(docs) => assert_eq!(docs, render_augmented(render_entries())),
        other => panic!("expected augmented documents, got {:?}", other),
    }
    match render(OutputStyle::PointList, render_entries()) {
        RenderedOutput::Points(points) => assert_eq!(points, render_points(render_entries())),
        other => panic!("expected points, got {:?}", other),
    }
}

#[test]
fn pipeline_preserves_input_order_through_batching_and_rendering() {
    let labels = ["u", "v", "w", "x", "y"];
    let docs: Vec<Document> = labels.iter().map(|l| render_doc(l)).collect();
    let batches = schedule(docs, 2);
    let vectors: Vec<Vec<Vector>> = batches
        .iter()
        .map(|b| {
            b.iter()
                .map(|(idx, _)| render_vector(&[*idx as f32]))
                .collect()
        })
        .collect();
    let entries = assemble(batches, vectors);
    let out = render_points(entries);
    assert_eq!(out.points.len(), labels.len());
    for (i, point) in out.points.iter().enumerate() {
        assert_eq!(point.id, i);
        assert_eq!(point.payload, render_doc(labels[i]));
        assert_eq!(point.vector, render_vector(&[i as f32]));
    }
}
