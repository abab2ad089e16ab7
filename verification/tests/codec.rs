use focus_annotator::model::{AnnotationImage, AnnotationZStack};
use focus_annotator::parse::parse_document;
use focus_annotator::raw::RawJson;
use focus_annotator::ser::serialize_document;

fn image(path: &str, neighbours: Vec<Option<String>>) -> AnnotationImage {
    AnnotationImage::from_vec(path.to_string(), neighbours)
}

fn stack(images: Vec<AnnotationImage>, best_index: Option<usize>) -> AnnotationZStack {
    AnnotationZStack {
        images,
        best_index,
        extra: Vec::new(),
    }
}

fn assert_documents_equal(a: &Vec<AnnotationZStack>, b: &Vec<AnnotationZStack>) {
    assert_eq!(a.len(), b.len());
    for (za, zb) in a.iter().zip(b.iter()) {
        assert_eq!(za.best_index, zb.best_index);
        assert_eq!(za.images.len(), zb.images.len());
        for (ia, ib) in za.images.iter().zip(zb.images.iter()) {
            assert_eq!(ia.image_path, ib.image_path);
            assert_eq!(ia.neighbours, ib.neighbours);
            assert_eq!(ia.extra.len(), ib.extra.len());
            for ((ka, va), (kb, vb)) in ia.extra.iter().zip(ib.extra.iter()) {
                assert_eq!(ka, kb);
                assert_eq!(va.raw_text(), vb.raw_text());
            }
        }
        assert_eq!(za.extra.len(), zb.extra.len());
        for ((ka, va), (kb, vb)) in za.extra.iter().zip(zb.extra.iter()) {
            assert_eq!(ka, kb);
            assert_eq!(va.raw_text(), vb.raw_text());
        }
    }
}

#[test]
fn round_trip_plain_document() {
    let doc = vec![
        stack(
            vec![
                image("a.jpg", vec![Some("n0.jpg".to_string()), None]),
                image("b.jpg", vec![]),
            ],
            Some(1),
        ),
        stack(vec![image("c.jpg", vec![None, None, Some("x.jpg".to_string())])], None),
    ];
    let text = serialize_document(&doc);
    let back = parse_document(&text).expect("written documents read back");
    assert_documents_equal(&doc, &back);
}

#[test]
fn round_trip_keeps_unknown_members() {
    let mut img = image("a.jpg", vec![]);
    img.extra.push((
        "exposure".to_string(),
        RawJson::new("0.013".to_string()).unwrap(),
    ));
    img.extra.push((
        "tags".to_string(),
        RawJson::new("[\"dark\",{\"n\":1}]".to_string()).unwrap(),
    ));
    let mut z = stack(vec![img], Some(0));
    z.extra.push((
        "microscope".to_string(),
        RawJson::new("{\"vendor\":\"acme\",\"serial\":null}".to_string()).unwrap(),
    ));
    let doc = vec![z];
    let text = serialize_document(&doc);
    let back = parse_document(&text).expect("written documents read back");
    assert_documents_equal(&doc, &back);
    assert_eq!(back[0].extra[0].0, "microscope");
    assert_eq!(
        back[0].extra[0].1.raw_text(),
        "{\"vendor\":\"acme\",\"serial\":null}"
    );
    assert_eq!(back[0].images[0].extra[1].1.raw_text(), "[\"dark\",{\"n\":1}]");
}

#[test]
fn serialize_writes_exact_text() {
    let doc = vec![stack(vec![image("a.jpg", vec![Some("left.jpg".to_string())])], Some(0))];
    let text = serialize_document(&doc);
    assert_eq!(
        text,
        "[{\"images\":[{\"image_path\":\"a.jpg\",\"neighbours\":[\"left.jpg\",null,null,null,null,null,null,null]}],\"best_index\":0}]"
    );
}

#[test]
fn serialize_empty_document() {
    let doc: Vec<AnnotationZStack> = Vec::new();
    assert_eq!(serialize_document(&doc), "[]");
    let back = parse_document("[]").expect("an empty array is a document");
    assert!(back.is_empty());
}

#[test]
fn parse_accepts_whitespace() {
    let text = "[ { \"images\": [ { \"image_path\": \"a.jpg\",\n  \"neighbours\": [null, null, null, null, null, null, null, null] } ],\n  \"best_index\": 2 } ]";
    let doc = parse_document(text).expect("whitespace between tokens is accepted");
    assert_eq!(doc.len(), 1);
    assert_eq!(doc[0].best_index, Some(2));
    assert_eq!(doc[0].images[0].image_path, "a.jpg");
    assert_eq!(doc[0].images[0].neighbours, vec![None::<String>; 8]);
}

#[test]
fn parse_keeps_unknown_members_from_other_tools() {
    let text = "[{\"images\":[{\"image_path\":\"a.jpg\",\"neighbours\":[null,null,null,null,null,null,null,null],\"score\":0.5}],\"best_index\":null,\"note\":\"low light\"}]";
    let doc = parse_document(text).expect("unknown members are carried");
    assert_eq!(doc[0].images[0].extra[0].0, "score");
    assert_eq!(doc[0].images[0].extra[0].1.raw_text(), "0.5");
    assert_eq!(doc[0].extra[0].0, "note");
    assert_eq!(doc[0].extra[0].1.raw_text(), "\"low light\"");
    let again = parse_document(&serialize_document(&doc)).expect("and written back unchanged");
    assert_documents_equal(&doc, &again);
}

#[test]
fn parse_rejects_malformed_text() {
    assert!(parse_document("").is_none());
    assert!(parse_document("[").is_none());
    assert!(parse_document("{}").is_none());
    assert!(parse_document("[{\"images\":[],\"best_index\":null}] trailing").is_none());
    assert!(parse_document("[{\"images\":[],\"best_index\":}]").is_none());
    assert!(parse_document("[{\"best_index\":null,\"images\":[]}]").is_none());
    assert!(
        parse_document("[{\"images\":[{\"image_path\":\"a\",\"neighbours\":[null]}],\"best_index\":null}]")
            .is_none(),
        "fewer than eight neighbour slots is not a document"
    );
}

#[test]
fn round_trip_escaped_paths() {
    let doc = vec![stack(
        vec![image(
            "odd \"name\" with \\ inside",
            vec![Some("tab\there".to_string())],
        )],
        None,
    )];
    let text = serialize_document(&doc);
    let back = parse_document(&text).expect("escaped strings read back");
    assert_eq!(back[0].images[0].image_path, "odd \"name\" with \\ inside");
    assert_eq!(back[0].images[0].neighbours[0].as_deref(), Some("tab\there"));
}

#[test]
fn parse_reads_string_escapes() {
    let text = "[{\"images\":[{\"image_path\":\"a\\n\\t\\r\\/\\\\\\\"\",\"neighbours\":[null,null,null,null,null,null,null,null]}],\"best_index\":0}]";
    let doc = parse_document(text).expect("the common escapes are read");
    assert_eq!(doc[0].images[0].image_path, "a\n\t\r/\\\"");
}

#[test]
fn parse_large_best_index() {
    let doc = vec![stack(vec![], Some(usize::MAX))];
    let text = serialize_document(&doc);
    let back = parse_document(&text).expect("any index the machine holds reads back");
    assert_eq!(back[0].best_index, Some(usize::MAX));
    let too_big = "[{\"images\":[],\"best_index\":999999999999999999999999999999}]";
    assert!(parse_document(too_big).is_none());
}

#[test]
fn raw_json_accepts_only_balanced_values() {
    assert!(RawJson::new("true".to_string()).is_some());
    assert!(RawJson::new("[1,[2,3]]".to_string()).is_some());
    assert!(RawJson::new("\"a,b}\"".to_string()).is_some());
    assert!(RawJson::new("".to_string()).is_none());
    assert!(RawJson::new(" true".to_string()).is_none());
    assert!(RawJson::new("[1,2".to_string()).is_none());
    assert!(RawJson::new("1,2".to_string()).is_none());
}
