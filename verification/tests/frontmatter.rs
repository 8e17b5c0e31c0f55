use sirno::frontmatter::{replace_markdown_body, split_frontmatter};

#[test]
fn replaced_body_reads_back_with_the_same_metadata() {
    let source = "---\nname: Alpha\n---\n\nOld body.\n";
    let replaced = replace_markdown_body(source, "\nNew body.\n").unwrap();
    let (metadata, body) = split_frontmatter(&replaced).unwrap();

    assert_eq!(metadata, "name: Alpha");
    assert_eq!(body, "\nNew body.\n");
}

#[test]
fn leading_line_break_becomes_the_separator_when_none_was_there() {
    let source = "---\r\nname: Alpha\r\n---\r\nOld body.\r\n";
    let replaced = replace_markdown_body(source, "\r\nNew body.\r\n").unwrap();
    let (metadata, body) = split_frontmatter(&replaced).unwrap();

    assert_eq!(metadata, "name: Alpha");
    assert_eq!(body, "New body.\r\n");
}

#[test]
fn body_without_line_break_reads_back_exactly() {
    let source = "---\nname: Alpha\n---\nOld body.\n";
    let replaced = replace_markdown_body(source, "New body.").unwrap();
    let (_, body) = split_frontmatter(&replaced).unwrap();

    assert_eq!(replaced, "---\nname: Alpha\n---\nNew body.");
    assert_eq!(body, "New body.");
}

use sirno::address::EntryAddress;
use sirno::entry::{Entry, EntryMetadata};

#[test]
fn written_entry_reads_back_with_its_body_and_metadata() {
    let mut metadata = EntryMetadata::new("Alpha", "First entry.").unwrap();
    metadata.push_structural_target("topic", EntryAddress::new("concept").unwrap());
    let body = "\nA body with a line\n---\nthat looks like a fence.\r\n";
    let entry = Entry::new(EntryAddress::new("alpha").unwrap(), metadata, body);

    let source = entry.to_markdown().unwrap();
    let (yaml, read_body) = split_frontmatter(&source).unwrap();
    assert_eq!(yaml, "name: Alpha\ndesc: First entry.\ntopic:\n  - concept");
    assert_eq!(read_body, body);

    let read = Entry::from_markdown(EntryAddress::new("alpha").unwrap(), &source).unwrap();
    assert_eq!(read.body, body);
    assert_eq!(read.metadata.name, "Alpha");
    assert_eq!(read.metadata.desc, "First entry.");
    assert_eq!(read.metadata.structural_targets_for("topic"), vec![EntryAddress::new("concept").unwrap()]);
}
