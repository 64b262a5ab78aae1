use rari_doc::bubble_up::{bubble_up_classes, ListCandidate, NoteCandidate};

fn list(p: usize, text: Option<&str>, external: &[usize]) -> ListCandidate {
    ListCandidate { paragraph: p, last_text: text.map(String::from), external_items: external.to_vec() }
}

fn note(text: Option<&str>, quote: Option<usize>) -> NoteCandidate {
    NoteCandidate { first_text: text.map(String::from), quote }
}

fn classes(v: Vec<(usize, String)>) -> Vec<(usize, &'static str)> {
    v.into_iter()
        .map(|(i, c)| (i, match c.as_str() {
            "curriculum-outcomes" => "outcomes",
            "curriculum-resources" => "resources",
            "curriculum-external-li" => "external",
            "curriculum-notes" => "notes",
            _ => "other",
        }))
        .collect()
}

#[test]
fn outcomes_resources_and_notes_are_marked() {
    let lists = vec![
        list(0, Some(" Learning outcomes: "), &[9]),
        list(1, Some("General resources:\n"), &[2, 3]),
        list(4, Some("resources:"), &[5]),
        list(6, None, &[]),
    ];
    let notes = vec![note(Some("Notes"), Some(7)), note(Some("Notes:"), Some(8)), note(Some("Note"), None)];
    assert_eq!(
        classes(bubble_up_classes(&lists, &notes)),
        vec![(0, "outcomes"), (1, "resources"), (2, "external"), (3, "external"), (7, "notes")]
    );
}

#[test]
fn nothing_is_marked_without_candidates() {
    assert!(bubble_up_classes(&[], &[]).is_empty());
    assert!(bubble_up_classes(&[list(0, Some("foo"), &[1])], &[note(None, Some(2))]).is_empty());
}
