//! Splitting the text of a configuration file into its YAML documents.
use vstd::prelude::*;
use crate::error::VaultError;
use yaml_rust::{Yaml, YamlEmitter, YamlLoader};

verus! {

#[verifier::external_type_specification]
#[verifier::external_body]
pub struct ExYaml(Yaml);

/// Whether `text` is a well-formed YAML stream; parsing depends on the text
/// alone.
pub uninterp spec fn yaml_loads(text: Seq<char>) -> bool;

/// How many documents a well-formed YAML stream holds; this depends on the
/// text alone.
pub uninterp spec fn yaml_doc_count(text: Seq<char>) -> nat;

/// Relies on `yaml_rust::YamlLoader::load_from_str`: the documents of a YAML
/// stream in order, or the scan error (rendered as text) that stopped the
/// parser.
#[verifier::external_body]
fn load_yaml(text: &str) -> (r: Result<Vec<Yaml>, String>)
    ensures
        r is Ok == yaml_loads(text@),
        r matches Ok(d) ==> d@.len() == yaml_doc_count(text@),
{
    match YamlLoader::load_from_str(text) {
        Ok(docs) => Ok(docs),
        Err(e) => Err(format!("{}", e)),
    }
}

/// Relies on `yaml_rust::YamlEmitter::dump`: one document as text, starting
/// with the `---` marker line. Writing into a `String` cannot fail, and the
/// emitter raises no error of its own.
#[verifier::external_body]
fn dump_yaml(doc: &Yaml) -> (r: String)
    ensures
        r@.len() >= 4 && r@.subrange(0, 4) == "---\n"@,
{
    let mut out = String::new();
    let _ = YamlEmitter::new(&mut out).dump(doc);
    out
}

/// The documents of a configuration file, each as YAML text of its own, in
/// the order of the file. Fails exactly when the text is not well-formed
/// YAML.
pub fn split_documents(text: &str) -> (r: Result<Vec<String>, VaultError>)
    ensures
        yaml_loads(text@) <==> r is Ok,
        !yaml_loads(text@) ==> (r matches Err(VaultError::YamlSyntax { .. })),
        r matches Ok(docs) ==> docs@.len() == yaml_doc_count(text@),
        r matches Ok(docs) ==> forall|i: int|
            0 <= i < docs@.len() ==> (#[trigger] docs@[i])@.len() >= 4 && docs@[i]@.subrange(0, 4)
                == "---\n"@,
{
    let docs = match load_yaml(text) {
        Ok(docs) => docs,
        Err(cause) => {
            return Err(VaultError::YamlSyntax { cause });
        },
    };
    let mut out: Vec<String> = Vec::new();
    let mut i: usize = 0;
    while i < docs.len()
        invariant
            yaml_loads(text@),
            docs@.len() == yaml_doc_count(text@),
            i <= docs@.len(),
            out@.len() == i,
            forall|k: int|
                0 <= k < out@.len() ==> (#[trigger] out@[k])@.len() >= 4 && out@[k]@.subrange(0, 4)
                    == "---\n"@,
        decreases docs.len() - i,
    {
        out.push(dump_yaml(&docs[i]));
        i = i + 1;
    }
    Ok(out)
}

} // verus!
