use sha2::{Digest, Sha256};
use sirno::address::EntryAddress;
use sirno::anchor::{
    artifact_tree_fingerprint, sha256_fingerprint, validate_fingerprint, validate_structural_field, AnchorEntry, AnchorError,
    AnchorFile,
};
use sirno::artifact::{EntryArtifact, EntryArtifactPath};
use sirno::charm::{
    artifact_map, manifest_artifact_path, validate_argv, validate_relative_output,
    CharmBuildSpec, CharmBundle, CharmCommandSpec, CharmError, CharmManifest,
    CharmPreparationSpec, SpellSpec,
};
use sirno::digest::hex_digest;
use sirno::entry::{Entry, EntryMetadata};

fn strings(values: &[&str]) -> Vec<String> {
    values.iter().map(|value| (*value).to_owned()).collect()
}

fn manifest(spell: &[&str], build: Option<CharmBuildSpec>) -> CharmManifest {
    CharmManifest {
        spell: SpellSpec { command: strings(spell) },
        charm: CharmPreparationSpec {
            setup: None,
            check: Some(CharmCommandSpec { command: strings(&["sh", "-n", "script.sh"]) }),
            build,
        },
        hooks: strings(&["example"]),
        inputs: None,
    }
}

fn artifact(owner: &str, path: &str, content: &[u8]) -> EntryArtifact {
    EntryArtifact::new(
        EntryAddress::new(owner).unwrap(),
        EntryArtifactPath::new(path).unwrap(),
        content.to_vec(),
    )
}

#[test]
fn argv_needs_elements_and_no_empty_ones() {
    assert!(validate_argv("spell.command", &strings(&["sh", "script.sh"])).is_ok());
    let empty = validate_argv("spell.command", &[]).unwrap_err();
    assert!(matches!(empty, CharmError::EmptyCommand("spell.command")));
    assert!(empty.message().contains("spell.command"));
    assert_eq!(empty.message(), "spell.command must contain at least one argv element");
    let blank = validate_argv("charm.check.command", &strings(&["sh", ""])).unwrap_err();
    assert_eq!(blank.message(), "charm.check.command must not contain empty argv elements");
}

#[test]
fn build_output_must_be_normal_and_relative() {
    assert!(validate_relative_output("target/debug/tool").is_ok());
    assert!(validate_relative_output("target/./tool").is_ok());
    for bad in ["", "/usr/bin/tool", "./tool", "../tool", "target/../tool"] {
        match validate_relative_output(bad) {
            Err(CharmError::InvalidBuildOutput(path)) => assert_eq!(path, bad),
            other => panic!("unexpected {other:?} for {bad:?}"),
        }
    }
}

#[test]
fn manifests_check_commands_then_output() {
    let direct = manifest(&["sh", "script.sh"], None);
    assert!(direct.validate().is_ok());
    assert!(!direct.is_source());

    let source = manifest(
        &["tool"],
        Some(CharmBuildSpec {
            command: strings(&["cargo", "build"]),
            output: Some("target/debug/tool".to_owned()),
        }),
    );
    assert!(source.validate().is_ok());
    assert!(source.is_source());

    let empty_spell = manifest(&[], None);
    let error = empty_spell.validate().unwrap_err();
    assert!(error.message().contains("spell.command"));

    let bad_build = manifest(
        &["tool"],
        Some(CharmBuildSpec { command: strings(&["make"]), output: Some("/abs".to_owned()) }),
    );
    assert_eq!(
        bad_build.validate().unwrap_err().message(),
        "charm.build.output must be a normal relative path: /abs"
    );
}

#[test]
fn artifact_maps_sort_by_path_and_keep_the_last_content() {
    let map = artifact_map(vec![
        artifact("alpha", "script.sh", b"one"),
        artifact("alpha", "Sirno.charm.toml", b"manifest"),
        artifact("alpha", "script.sh", b"two"),
    ]);
    assert_eq!(map.len(), 2);
    assert_eq!(map[0].0.as_str(), "Sirno.charm.toml");
    assert_eq!(map[1].0.as_str(), "script.sh");
    assert_eq!(map[1].1, b"two".to_vec());
    assert_eq!(manifest_artifact_path().as_str(), "Sirno.charm.toml");
}

#[test]
fn charm_fingerprint_hashes_entry_and_artifacts() {
    let metadata = EntryMetadata::new("Alpha", "A charm.").unwrap();
    let entry = Entry::new(EntryAddress::new("alpha").unwrap(), metadata, "Body.\n");
    let markdown = entry.to_markdown().unwrap();
    let bundle = CharmBundle {
        entry,
        manifest: manifest(&["sh", "script.sh"], None),
        artifact_root: "docs/.artifacts/alpha".to_owned(),
        artifacts: artifact_map(vec![artifact("alpha", "script.sh", b"echo hi\n")]),
    };
    assert_eq!(bundle.kind_label(), "direct");

    let mut hasher = Sha256::new();
    hasher.update(b"sirno-charm-v1\n");
    hasher.update(markdown.as_bytes());
    hasher.update(b"\n");
    hasher.update(b"script.sh");
    hasher.update(b"\0");
    hasher.update(b"8");
    hasher.update(b"\0");
    hasher.update(b"echo hi\n");
    hasher.update(b"\n");
    let expected = hex_digest(hasher.finalize().as_slice());

    assert_eq!(bundle.fingerprint().unwrap(), expected);
    assert_eq!(expected.len(), 64);
}

#[test]
fn hex_digest_writes_two_lowercase_digits_per_byte() {
    assert_eq!(hex_digest(&[0x00, 0x0f, 0xa0, 0xff]), "000fa0ff");
    assert_eq!(hex_digest(&[]), "");
}

#[test]
fn entry_fingerprints_use_a_version_line() {
    let fingerprint = sha256_fingerprint(b"abc");
    let mut hasher = Sha256::new();
    hasher.update(b"sirno-entry-v1\nabc");
    assert_eq!(fingerprint, format!("sha256:{}", hex_digest(hasher.finalize().as_slice())));
    assert!(validate_fingerprint("entries.a.fingerprint".to_owned(), &fingerprint).is_ok());
}

#[test]
fn fingerprints_need_prefix_and_sixty_four_hex_digits() {
    let good = format!("sha256:{}", "aB".repeat(32));
    assert!(validate_fingerprint("f".to_owned(), &good).is_ok());
    for bad in [
        "sha256:".to_owned(),
        format!("sha1:{}", "a".repeat(64)),
        format!("sha256:{}", "a".repeat(63)),
        format!("sha256:{}g", "a".repeat(63)),
    ] {
        match validate_fingerprint("entries.x.fingerprint".to_owned(), &bad) {
            Err(AnchorError::InvalidFingerprint { field, value }) => {
                assert_eq!(field, "entries.x.fingerprint");
                assert_eq!(value, bad);
            }
            other => panic!("unexpected {other:?}"),
        }
    }
}

#[test]
fn anchor_structural_fields_fit_beside_fingerprints() {
    assert!(validate_structural_field("topic").is_ok());
    for bad in ["", "a,b", "a\nb", "a\rb", "fingerprint", "artifact_fingerprint"] {
        assert!(matches!(
            validate_structural_field(bad),
            Err(AnchorError::InvalidStructuralField(field)) if field == bad
        ));
    }
}

#[test]
fn anchors_check_schema_then_entries_in_order() {
    let good = format!("sha256:{}", "0".repeat(64));
    let entry = |fingerprint: &str| {
        AnchorEntry::new(
            fingerprint.to_owned(),
            None,
            vec![("topic".to_owned(), vec![EntryAddress::new("alpha").unwrap()])],
        )
    };
    let anchor = AnchorFile {
        schema: 1,
        lake: "docs".to_owned(),
        entries: vec![("alpha".to_owned(), entry(&good)), ("beta".to_owned(), entry(&good))],
    };
    assert!(anchor.validate().is_ok());

    let old = AnchorFile { schema: 2, lake: "docs".to_owned(), entries: Vec::new() };
    let error = old.validate().unwrap_err();
    assert!(matches!(error, AnchorError::UnsupportedSchema { found: 2 }));
    assert_eq!(error.message(), "unsupported anchor schema 2; expected 1");

    let bad = AnchorFile {
        schema: 1,
        lake: "docs".to_owned(),
        entries: vec![("alpha".to_owned(), entry(&good)), ("beta".to_owned(), entry("sha256:x"))],
    };
    assert_eq!(
        bad.validate().unwrap_err().message(),
        "invalid anchor fingerprint in entries.beta.fingerprint: sha256:x"
    );

    let bad_id = AnchorFile {
        schema: 1,
        lake: "docs".to_owned(),
        entries: vec![("a/b".to_owned(), entry(&good))],
    };
    assert_eq!(bad_id.validate().unwrap_err().message(), "invalid anchor entry address `a/b`");
}

#[test]
fn artifact_tree_fingerprints_sort_by_path() {
    let artifacts = vec![
        artifact("alpha", "z.txt", b"last"),
        artifact("alpha", "a/b.txt", b"first"),
        artifact("alpha", "m.txt", b""),
    ];
    let mut hasher = Sha256::new();
    hasher.update(b"sirno-artifact-tree-v1\n");
    for (path, content) in [("a/b.txt", b"first".as_slice()), ("m.txt", b"".as_slice()), ("z.txt", b"last".as_slice())] {
        hasher.update(path.as_bytes());
        hasher.update(b"\0");
        hasher.update(content.len().to_string().as_bytes());
        hasher.update(b"\0");
        hasher.update(content);
        hasher.update(b"\n");
    }
    let expected = format!("sha256:{}", hex_digest(hasher.finalize().as_slice()));

    assert_eq!(artifact_tree_fingerprint(&artifacts), expected);
    let reversed: Vec<EntryArtifact> = artifacts.into_iter().rev().collect();
    assert_eq!(artifact_tree_fingerprint(&reversed), expected);
}
