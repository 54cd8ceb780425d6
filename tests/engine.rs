use sheesy_vault::help::mk_help;
use sheesy_vault::merge::{merge_document, step, Command, Effect, MergeMode, OutputMode, Source, State};
use sheesy_vault::recipients::{recipients_file_text, sort_dedup, string_less};
use sheesy_vault::text::{decimal_string, parse_index};
use sheesy_vault::vault::Vault;

fn strings(items: &[&str]) -> Vec<String> {
    items.iter().map(|s| s.to_string()).collect()
}

#[test]
fn merge_clash_fails_under_never_drop() {
    let state = State { value: Some("{a: 1}"), merge_mode: MergeMode::NeverDrop, output_mode: OutputMode::Json };
    let err = merge_document(state, "{a: 2}", "{a: 2}", strings(&["a"])).unwrap_err();
    assert_eq!(err.keys, strings(&["a"]));
    assert_eq!(err.message(), "The merge failed due to conflicts\na");
}

#[test]
fn merge_clash_overwrites_under_overwrite() {
    let state = State { value: Some("{a: 1}"), merge_mode: MergeMode::Overwrite, output_mode: OutputMode::Yaml };
    let merged = merge_document(state, "{a: 2}", "{a: 2}", strings(&["a"])).unwrap();
    assert_eq!(merged.value, Some("{a: 2}"));
    assert_eq!(merged.output_mode, OutputMode::Yaml);
}

#[test]
fn merging_into_nothing_adopts_the_document() {
    let state: State<i32> = State::new();
    let merged = merge_document(state, 7, 0, strings(&["ignored"])).unwrap();
    assert_eq!(merged.value, Some(7));
}

#[test]
fn steps_change_modes_or_ask_for_work() {
    let state: State<i32> = State::new();
    let (state, effect) = step(state, Command::SetMergeMode(MergeMode::Overwrite));
    assert_eq!(effect, Effect::Nothing);
    assert_eq!(state.merge_mode, MergeMode::Overwrite);
    let (state, effect) = step(state, Command::SetOutputMode(OutputMode::Yaml));
    assert_eq!(effect, Effect::Nothing);
    assert_eq!(state.output_mode, OutputMode::Yaml);
    let (state, effect) = step(state, Command::MergePath("x.json".into()));
    assert_eq!(effect, Effect::Merge(Source::Path("x.json".into())));
    let (state, effect) = step(state, Command::MergeStdin);
    assert_eq!(effect, Effect::Merge(Source::Stdin));
    let (_, effect) = step(state, Command::Serialize);
    assert_eq!(effect, Effect::Show);
}

#[test]
fn recipients_are_sorted_and_deduplicated() {
    let mut list = strings(&["b", "a", "c", "a", "ab", "b"]);
    sort_dedup(&mut list);
    assert_eq!(list, strings(&["a", "ab", "b", "c"]));
    assert_eq!(recipients_file_text(&list), "a\nab\nb\nc\n");
    let mut empty: Vec<String> = Vec::new();
    sort_dedup(&mut empty);
    assert!(empty.is_empty());
    assert_eq!(recipients_file_text(&empty), "");
}

#[test]
fn write_recipients_list_canonicalizes_and_names_the_file() {
    let v = Vault::default();
    let mut list = strings(&["F2", "F1", "F2"]);
    assert_eq!(v.write_recipients_list(&mut list), ".gpg-id");
    assert_eq!(list, strings(&["F1", "F2"]));
}

#[test]
fn byte_order_of_strings() {
    assert!(string_less(&"a".to_string(), &"b".to_string()));
    assert!(string_less(&"a".to_string(), &"ab".to_string()));
    assert!(!string_less(&"ab".to_string(), &"ab".to_string()));
    assert!(string_less(&"Z".to_string(), &"a".to_string()));
}

#[test]
fn decimal_rendering_and_parsing() {
    assert_eq!(decimal_string(0), "0");
    assert_eq!(decimal_string(1207), "1207");
    assert_eq!(parse_index("42"), Some(42));
    assert_eq!(parse_index("+3"), Some(3));
    assert_eq!(parse_index("+"), None);
    assert_eq!(parse_index(""), None);
    assert_eq!(parse_index("-1"), None);
    assert_eq!(parse_index("4a"), None);
    assert_eq!(parse_index("99999999999999999999999"), None);
}

#[test]
fn missing_keys_are_reported_with_key_file_hints() {
    let mut v = Vault::default();
    v.gpg_keys = Some("keys".into());
    let ids = strings(&["AAA", "BBB"]);
    let found = vec![true, false];
    let exists = vec![false, true];
    let lines = strings(&["AAA (Alice <a@example.com>)"]);
    let msg = v.check_key_lookup("recipient", &ids, &found, &exists, &lines).unwrap_err();
    assert_eq!(
        msg,
        "Didn't find the key for 1 recipient(s) in the gpg database. This might mean it wasn't imported yet from the 'keys' directory.\n\
         The following recipient(s) could not be found in the gpg key database:\n\
         BBB (Import key-file using 'gpg --import 'keys/BBB')\n\
         All recipients found in gpg database:\n\
         AAA (Alice <a@example.com>)"
    );
    assert_eq!(v.key_file_path("BBB"), Some("keys/BBB".to_string()));
}

#[test]
fn missing_keys_without_key_directory() {
    let v = Vault::default();
    let ids = strings(&["AAA"]);
    let msg = v.check_key_lookup("recipient", &ids, &vec![false], &vec![false], &Vec::new()).unwrap_err();
    assert_eq!(
        msg,
        "Didn't find the key for 1 recipient(s) in the gpg database.\n\
         The following recipient(s) could not be found in the gpg key database:\n\
         AAA (No GPG keys directory)"
    );
}

#[test]
fn extra_keys_are_reported_with_a_signed_difference() {
    let v = Vault::default();
    let ids = strings(&["A"]);
    let lines = strings(&["A one", "A two"]);
    let msg = v.check_key_lookup("recipient", &ids, &vec![true], &vec![false], &lines).unwrap_err();
    assert_eq!(
        msg,
        "Found -1 additional keys to encrypt for, which may indicate an unusual recipients specification in the recipients file at '.gpg-id'\n\
         All recipients found in gpg database:\n\
         A one\n\
         A two"
    );
}

#[test]
fn complete_lookups_succeed() {
    let v = Vault::default();
    let ids = strings(&["A"]);
    assert!(v.check_key_lookup("recipient", &ids, &vec![true], &vec![false], &strings(&["A k"])).is_ok());
}

#[test]
fn empty_recipients_are_refused() {
    let v = Vault::default();
    assert_eq!(
        v.check_recipients_present(&Vec::new()).unwrap_err().message(),
        "No recipients found in recipients file at '.gpg-id'."
    );
    assert!(v.check_recipients_present(&strings(&["A"])).is_ok());
}

#[test]
fn help_text() {
    assert_eq!(
        mk_help("partition", ""),
        "A partition can be selected by the directory used to stored its resources, by its name (which may be ambiguous), or by the index in the vault description file."
    );
}
