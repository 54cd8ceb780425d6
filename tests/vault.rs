use sheesy_vault::config::{from_documents, select_vault, VaultDocument, VaultExt};
use sheesy_vault::error::VaultError;
use sheesy_vault::path::{normalize, parent_dir, starts_with};
use sheesy_vault::vault::{recipients_default, secrets_default, Vault, VaultKind};

fn named(name: &str) -> Vault {
    Vault {
        name: Some(name.into()),
        ..Default::default()
    }
}

fn at(secrets: &str, recipients: &str) -> Vault {
    Vault {
        secrets: secrets.into(),
        recipients: recipients.into(),
        ..Default::default()
    }
}

#[test]
fn it_selects_by_name() {
    let vault = named("foo");
    let v = vec![vault.clone()];
    assert_eq!(v.select("foo").unwrap(), vault)
}

#[test]
fn it_selects_by_index() {
    let v = vec![Vault::default()];
    assert!(v.select("0").is_ok())
}

#[test]
fn it_errors_if_name_is_unknown() {
    let v = Vec::<Vault>::new();
    assert_eq!(
        v.select("foo").unwrap_err().message(),
        "Vault name 'foo' is unknown."
    )
}

#[test]
fn it_errors_if_index_is_out_of_bounds() {
    let v = Vec::<Vault>::new();
    assert_eq!(
        v.select("0").unwrap_err().message(),
        "Vault index 0 is out of bounds."
    )
}

#[test]
fn it_will_always_remove_current_dirs_including_the_first_one() {
    assert_eq!(normalize("./././a"), "a")
}

#[test]
fn it_does_not_alter_parent_dirs() {
    assert_eq!(normalize("./../.././a"), "../../a")
}

#[test]
fn it_print_the_name_in_the_url_if_there_is_none() {
    let mut v = Vault::default();
    v.name = Some("name".into());
    assert_eq!(v.url(), "syv://name@.")
}

#[test]
fn it_does_not_print_the_name_in_the_url_if_there_is_none() {
    let v = Vault::default();
    assert_eq!(v.url(), "syv://.")
}

#[test]
fn normalize_is_idempotent_on_examples() {
    for p in ["./././a", "./../.././a", "/a/./b//c/", ".", "", "/", "a/..", "./"] {
        let once = normalize(p);
        assert_eq!(normalize(&once), once);
    }
}

#[test]
fn normalize_keeps_absolute_paths_and_yields_dot_for_nothing() {
    assert_eq!(normalize("/a/./b//c/"), "/a/b/c");
    assert_eq!(normalize("/"), "/");
    assert_eq!(normalize("./"), ".");
    assert_eq!(normalize(""), ".");
    assert_eq!(normalize("a/../b"), "a/../b");
}

#[test]
fn parent_directories() {
    assert_eq!(parent_dir("dir/sy-vault.yml"), Some("dir".to_string()));
    assert_eq!(parent_dir("sy-vault.yml"), Some(".".to_string()));
    assert_eq!(parent_dir("/etc/sy-vault.yml"), Some("/etc".to_string()));
    assert_eq!(parent_dir("/"), None);
    assert_eq!(parent_dir(""), None);
}

#[test]
fn starts_with_compares_whole_components() {
    assert!(starts_with("data/p1", "data"));
    assert!(!starts_with("data2", "data"));
    assert!(!starts_with("/data/p1", "data"));
    assert!(starts_with("data", "data"));
}

#[test]
fn defaults() {
    assert_eq!(recipients_default(), ".gpg-id");
    assert_eq!(secrets_default(), ".");
    let v = Vault::default();
    assert_eq!(v.kind, VaultKind::Leader { index: 0 });
    assert_eq!(VaultKind::default(), VaultKind::Leader { index: 0 });
}

#[test]
fn paths_resolve_against_the_anchor() {
    let mut v = at("secrets", "keys/.gpg-id");
    v.resolved_at = "/home/me/vault".into();
    assert_eq!(v.secrets_path(), "/home/me/vault/secrets");
    assert_eq!(v.recipients_path(), "/home/me/vault/keys/.gpg-id");
    assert_eq!(v.absolute_path("/abs/./x"), "/abs/x");
    assert_eq!(v.url(), "syv:///home/me/vault/secrets");
}

#[test]
fn gpg_keys_dir_is_resolved_or_missing() {
    let mut v = Vault::default();
    assert_eq!(
        v.gpg_keys_dir().unwrap_err().message(),
        "The vault at '<unknown>' does not have a gpg_keys directory configured."
    );
    v.vault_path = Some("./sy-vault.yml".into());
    assert_eq!(
        v.gpg_keys_dir().unwrap_err().message(),
        "The vault at './sy-vault.yml' does not have a gpg_keys directory configured."
    );
    v.gpg_keys = Some("./keys/".into());
    assert_eq!(v.gpg_keys_dir().unwrap(), "keys");
}

#[test]
fn overlap_is_detected_and_names_both_paths() {
    let mut leader = at("data", ".gpg-id");
    leader.partitions = vec![at("data/p1", "p1/.gpg-id")];
    let err = leader.validate().unwrap_err();
    assert_eq!(
        err,
        VaultError::Overlap {
            contained: "./data/p1".into(),
            container: "./data".into()
        }
    );
    assert_eq!(
        err.message(),
        "Partition at './data/p1' is contained in another partitions resources directory at './data'"
    );
}

#[test]
fn disjoint_partitions_validate() {
    let mut leader = at("data", ".gpg-id");
    leader.partitions = vec![at("data2", "p1/.gpg-id"), at("/abs/data", "p2/.gpg-id")];
    assert!(leader.validate().is_ok());
}

#[test]
fn shared_recipients_file_is_rejected() {
    let mut leader = at("a", ".gpg-id");
    leader.partitions = vec![at("b", "./.gpg-id")];
    let err = leader.validate().unwrap_err();
    assert_eq!(
        err.message(),
        "Recipients path '.gpg-id' is already used, but must be unique across all partitions"
    );
}

#[test]
fn select_rehomes_the_other_documents_as_partitions() {
    let vaults = vec![named("a"), named("b"), named("c")];
    let leader = vaults.select("1").unwrap();
    assert_eq!(leader.name, Some("b".to_string()));
    assert_eq!(leader.kind, VaultKind::Leader { index: 1 });
    let names: Vec<_> = leader.partitions.iter().map(|p| p.name.clone().unwrap()).collect();
    assert_eq!(names, vec!["a".to_string(), "c".to_string()]);
    assert!(leader.partitions.iter().all(|p| p.kind == VaultKind::Partition));
}

#[test]
fn select_by_name_picks_the_first_match() {
    let vaults = vec![named("x"), named("dup"), named("dup")];
    let leader = select_vault(vaults, "dup").unwrap();
    assert_eq!(leader.kind, VaultKind::Leader { index: 1 });
    assert_eq!(leader.partitions.len(), 2);
    let by_plus = vec![named("x"), named("y")].select("+1").unwrap();
    assert_eq!(by_plus.kind, VaultKind::Leader { index: 1 });
}

#[test]
fn save_order_puts_the_leader_back_at_its_index() {
    let vaults = vec![at("a", "a/.gpg-id"), at("b", "b/.gpg-id"), at("c", "c/.gpg-id")];
    let leader = vaults.select("1").unwrap();
    let docs = leader.to_documents().unwrap();
    let secrets: Vec<_> = docs.iter().map(|d| d.secrets.clone()).collect();
    assert_eq!(secrets, vec!["a", "b", "c"]);
}

#[test]
fn save_then_load_then_select_round_trips() {
    let mut first = at("a", "a/.gpg-id");
    first.name = Some("first".into());
    first.gpg_keys = Some("keys".into());
    let vaults = vec![first, at("b", "b/.gpg-id"), at("c", "c/.gpg-id")];
    let leader = vaults.select("2").unwrap();
    let docs = leader.to_documents().unwrap();
    let loaded = from_documents(docs, "conf/sy-vault.yml").unwrap();
    assert!(loaded.iter().all(|v| v.resolved_at == "conf"));
    assert_eq!(loaded[0].vault_path, Some("conf/sy-vault.yml".to_string()));
    let again = loaded.select("2").unwrap();
    assert_eq!(again.document(), leader.document());
    assert_eq!(again.kind, leader.kind);
    let a: Vec<VaultDocument> = again.partitions.iter().map(|p| p.document()).collect();
    let b: Vec<VaultDocument> = leader.partitions.iter().map(|p| p.document()).collect();
    assert_eq!(a, b);
}

#[test]
fn partitions_cannot_be_saved() {
    let mut v = Vault::default();
    v.kind = VaultKind::Partition;
    assert_eq!(v.to_documents().unwrap_err(), VaultError::PartitionUnsupported);
}

#[test]
fn loading_needs_a_parent_directory() {
    let docs = vec![Vault::default().document()];
    assert_eq!(
        from_documents(docs, "/").unwrap_err().message(),
        "The vault file path '/' is invalid."
    );
    assert!(from_documents(Vec::new(), "/").unwrap().is_empty());
}

#[test]
fn set_resolved_at_anchors_at_the_parent() {
    let v = Vault::default().set_resolved_at("./x/../y/sy-vault.yml").unwrap();
    assert_eq!(v.resolved_at, "x/../y");
    assert_eq!(v.vault_path, Some("./x/../y/sy-vault.yml".to_string()));
}

#[test]
fn configuration_text_splits_into_documents() {
    let docs = sheesy_vault::documents::split_documents("name: a\n---\nname: b\nsecrets: s\n").unwrap();
    assert_eq!(docs.len(), 2);
    assert!(docs[0].contains("name: a"));
    assert!(docs[1].contains("name: b"));
    assert!(sheesy_vault::documents::split_documents("").unwrap().is_empty());
    assert!(docs.iter().all(|d| d.starts_with("---\n")));
    assert!(docs[1].contains("secrets: s"));
    let err = sheesy_vault::documents::split_documents("a: [").unwrap_err();
    assert!(matches!(err, VaultError::YamlSyntax { .. }));
}

#[test]
fn cloning_copies_partitions_too() {
    let mut leader = named("l");
    leader.partitions = vec![named("p1"), named("p2")];
    let copy = leader.clone();
    assert_eq!(copy, leader);
}
