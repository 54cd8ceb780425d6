//! The configuration file as a flat list of documents, and its re-homing into
//! a leader vault that carries the other documents as partitions.
use vstd::prelude::*;
use crate::error::VaultError;
use crate::path::{parent_dir, parent_of, string_eq};
use crate::text::{decimal, lemma_decimal_parses, parse_index, parsed_index};
use crate::vault::{is_consistent, lemma_lone_vault_consistent, validation_error, with_kind, Vault, VaultKind};

verus! {

/// The persisted part of a vault: one document of a configuration file.
#[derive(Debug, Clone, PartialEq)]
pub struct VaultDocument {
    pub name: Option<String>,
    pub secrets: String,
    pub gpg_keys: Option<String>,
    pub recipients: String,
}

/// What a vault writes to its configuration file.
pub open spec fn document_of(v: Vault) -> VaultDocument {
    VaultDocument { name: v.name, secrets: v.secrets, gpg_keys: v.gpg_keys, recipients: v.recipients }
}

/// The vaults in the order their documents are written: the leader is placed
/// among its partitions at its own index, or after them all when the index
/// reaches past them.
pub open spec fn saved_order(v: Vault) -> Seq<Vault> {
    let ps = v.partitions@;
    let k = match v.kind {
        VaultKind::Leader { index } => if index < ps.len() {
            index as int
        } else {
            ps.len() as int
        },
        VaultKind::Partition => ps.len() as int,
    };
    ps.subrange(0, k).push(v) + ps.subrange(k, ps.len() as int)
}

/// Vault `v` carries name `name`.
pub open spec fn is_named(v: Vault, name: Seq<char>) -> bool {
    v.name matches Some(n) && n@ == name
}

/// Document `k` of `vaults` made the leader: its kind records `k`, and every
/// other document, in order, becomes one of its partitions.
pub open spec fn is_leader_from(vaults: Seq<Vault>, k: int, w: Vault) -> bool {
    &&& w == (Vault {
        kind: VaultKind::Leader { index: k as usize },
        partitions: w.partitions,
        ..vaults[k]
    })
    &&& w.partitions@ == vaults.remove(k).map_values(|p: Vault| with_kind(p, VaultKind::Partition))
}

/// The outcome of selecting `id` among `vaults`: a decimal index picks that
/// document, anything else picks the first document of that name.
pub open spec fn selection(vaults: Seq<Vault>, id: Seq<char>, r: Result<Vault, VaultError>) -> bool {
    match parsed_index(id) {
        Some(i) => if i < vaults.len() {
            r matches Ok(w) && is_leader_from(vaults, i as int, w)
        } else {
            r == Err::<Vault, VaultError>(VaultError::IndexOutOfBounds { index: i as usize })
        },
        None => if exists|k: int| 0 <= k < vaults.len() && is_named(#[trigger] vaults[k], id) {
            exists|k: int|
                #![trigger vaults[k]]
                {
                    &&& 0 <= k < vaults.len()
                    &&& is_named(vaults[k], id)
                    &&& forall|b: int| 0 <= b < k ==> !is_named(#[trigger] vaults[b], id)
                    &&& r matches Ok(w) && is_leader_from(vaults, k, w)
                }
        } else {
            r matches Err(VaultError::UnknownName { name }) && name@ == id
        },
    }
}

/// Picks the leader among the documents of a configuration file; see
/// `selection`.
pub fn select_vault(vaults: Vec<Vault>, vault_id: &str) -> (r: Result<Vault, VaultError>)
    ensures
        selection(vaults@, vault_id@, r),
{
    let ghost orig = vaults@;
    let index = match parse_index(vault_id) {
        Some(i) => {
            if i >= vaults.len() {
                return Err(VaultError::IndexOutOfBounds { index: i });
            }
            i
        },
        None => {
            let wanted = String::from_str(vault_id);
            let mut k: usize = 0;
            let mut found = false;
            while k < vaults.len() && !found
                invariant
                    vaults@ == orig,
                    wanted@ == vault_id@,
                    k <= vaults.len(),
                    found ==> 0 < k && is_named(orig[k - 1], vault_id@),
                    forall|b: int| 0 <= b < (if found { k - 1 } else { k as int }) ==> !is_named(
                        #[trigger] orig[b],
                        vault_id@,
                    ),
                decreases vaults.len() - k + (if found { 0int } else { 1int }),
            {
                match &vaults[k].name {
                    Some(n) => {
                        if string_eq(n, &wanted) {
                            found = true;
                        }
                    },
                    None => {},
                }
                k = k + 1;
            }
            if !found {
                return Err(VaultError::UnknownName { name: wanted });
            }
            k - 1
        },
    };
    let mut rest = vaults;
    let mut leader = rest.remove(index);
    leader.kind = VaultKind::Leader { index };
    let ghost others = orig.remove(index as int);
    assert(rest@ == others);
    let mut partitions: Vec<Vault> = Vec::new();
    while rest.len() > 0
        invariant
            partitions@.len() + rest@.len() == others.len(),
            rest@ == others.subrange(partitions@.len() as int, others.len() as int),
            partitions@ == others.subrange(0, partitions@.len() as int).map_values(
                |p: Vault| with_kind(p, VaultKind::Partition),
            ),
        decreases rest@.len(),
    {
        let mut p = rest.remove(0);
        p.kind = VaultKind::Partition;
        let ghost m = partitions@.len() as int;
        partitions.push(p);
        assert(partitions@ =~= others.subrange(0, m + 1).map_values(
            |p: Vault| with_kind(p, VaultKind::Partition),
        ));
        assert(rest@ =~= others.subrange(m + 1, others.len() as int));
    }
    assert(others.subrange(0, others.len() as int) =~= others);
    leader.partitions = partitions;
    Ok(leader)
}

/// Selecting by the decimal index `i` makes document `i` the leader, with
/// kind `Leader { index: i }`, and turns every other document into a
/// partition.
pub proof fn lemma_select_by_index(vaults: Seq<Vault>, i: usize, r: Result<Vault, VaultError>)
    requires
        i < vaults.len(),
        selection(vaults, decimal(i as nat), r),
    ensures
        r matches Ok(w) && w.kind == (VaultKind::Leader { index: i }) && w.partitions@.len() + 1
            == vaults.len() && forall|j: int|
            0 <= j < w.partitions@.len() ==> (#[trigger] w.partitions@[j]).kind is Partition,
{
    lemma_decimal_parses(i as nat);
    let w = r->Ok_0;
    assert forall|j: int| 0 <= j < w.partitions@.len() implies (#[trigger] w.partitions@[j]).kind is Partition by {
        assert(w.partitions@[j] == with_kind(vaults.remove(i as int)[j], VaultKind::Partition));
    }
}

/// Writing a leader's documents and selecting its index among the vaults
/// read back gives the leader and its partitions again, as far as documents
/// hold them: the same documents, the same leader kind, and partitions in
/// their order.
pub proof fn lemma_save_then_select(v: Vault, loaded: Seq<Vault>, r: Result<Vault, VaultError>)
    requires
        v.kind is Leader,
        v.kind->index <= v.partitions@.len(),
        loaded.map_values(|x: Vault| document_of(x)) == saved_order(v).map_values(
            |x: Vault| document_of(x),
        ),
        selection(loaded, decimal(v.kind->index as nat), r),
    ensures
        r matches Ok(w) && document_of(w) == document_of(v) && w.kind == v.kind
            && w.partitions@.len() == v.partitions@.len() && forall|j: int|
            0 <= j < w.partitions@.len() ==> document_of(#[trigger] w.partitions@[j])
                == document_of(v.partitions@[j]) && w.partitions@[j].kind is Partition,
{
    let k = v.kind->index;
    let ps = v.partitions@;
    let order = saved_order(v);
    lemma_decimal_parses(k as nat);
    assert(loaded.map_values(|x: Vault| document_of(x)).len() == loaded.len());
    assert(order.map_values(|x: Vault| document_of(x)).len() == order.len());
    assert(loaded.len() == order.len());
    assert(order[k as int] == v);
    assert(document_of(loaded[k as int]) == loaded.map_values(|x: Vault| document_of(x))[k as int]);
    let w = r->Ok_0;
    assert forall|j: int| 0 <= j < w.partitions@.len() implies document_of(#[trigger] w.partitions@[j])
        == document_of(ps[j]) && w.partitions@[j].kind is Partition by {
        let src = if j < k { j } else { j + 1 };
        assert(w.partitions@[j] == with_kind(loaded.remove(k as int)[j], VaultKind::Partition));
        assert(loaded.remove(k as int)[j] == loaded[src]);
        assert(order[src] == ps[j]);
        assert(document_of(loaded[src]) == loaded.map_values(|x: Vault| document_of(x))[src]);
    }
}

/// Selection among the documents of a configuration file.
pub trait VaultExt: Sized {
    /// The outcome that `select` must produce.
    spec fn selected(self, vault_id: Seq<char>, r: Result<Vault, VaultError>) -> bool;

    /// Picks the leader by index or by name.
    fn select(self, vault_id: &str) -> (r: Result<Vault, VaultError>)
        ensures
            self.selected(vault_id@, r),
    ;
}

impl VaultExt for Vec<Vault> {
    open spec fn selected(self, vault_id: Seq<char>, r: Result<Vault, VaultError>) -> bool {
        selection(self@, vault_id, r)
    }

    fn select(self, vault_id: &str) -> (r: Result<Vault, VaultError>) {
        select_vault(self, vault_id)
    }
}

impl Vault {
    /// The document this vault writes to its configuration file.
    pub fn document(&self) -> (r: VaultDocument)
        ensures
            r == document_of(*self),
    {
        VaultDocument {
            name: match &self.name {
                Some(n) => Some(n.clone()),
                None => None,
            },
            secrets: self.secrets.clone(),
            gpg_keys: match &self.gpg_keys {
                Some(g) => Some(g.clone()),
                None => None,
            },
            recipients: self.recipients.clone(),
        }
    }

    /// The documents to write for this leader, in on-disk order (see
    /// `saved_order`), after checking the configuration's invariants.
    pub fn to_documents(&self) -> (r: Result<Vec<VaultDocument>, VaultError>)
        ensures
            !is_consistent(*self) ==> (r matches Err(e) && validation_error(*self, e)),
            is_consistent(*self) && self.kind is Partition ==> r == Err::<
                Vec<VaultDocument>,
                VaultError,
            >(VaultError::PartitionUnsupported),
            is_consistent(*self) && self.kind is Leader ==> (r matches Ok(docs) && docs@
                == saved_order(*self).map_values(|v: Vault| document_of(v))),
    {
        match self.validate() {
            Err(e) => {
                return Err(e);
            },
            Ok(()) => {},
        }
        let index = match self.kind {
            VaultKind::Partition => {
                return Err(VaultError::PartitionUnsupported);
            },
            VaultKind::Leader { index } => index,
        };
        let ghost ps = self.partitions@;
        let n = self.partitions.len();
        let ghost k = if (index as int) < ps.len() {
            index as int
        } else {
            ps.len() as int
        };
        let ghost order = saved_order(*self);
        assert(order.len() == n + 1);
        let mut docs: Vec<VaultDocument> = Vec::new();
        let mut i: usize = 0;
        while i < n
            invariant
                n == ps.len(),
                ps == self.partitions@,
                order == saved_order(*self),
                order.len() == n + 1,
                k == (if (index as int) < ps.len() { index as int } else { ps.len() as int }),
                self.kind == (VaultKind::Leader { index }),
                i <= n,
                docs@ == order.subrange(0, if i as int > k { i as int + 1 } else { i as int }).map_values(
                    |v: Vault| document_of(v),
                ),
            decreases n - i,
        {
            if i == index {
                docs.push(self.document());
                assert(order[k] == *self);
            }
            let d = self.partitions[i].document();
            let ghost at = if i as int >= k { i as int + 1 } else { i as int };
            assert(order[at] == ps[i as int]);
            docs.push(d);
            i = i + 1;
            assert(docs@ =~= order.subrange(0, if i as int > k { i as int + 1 } else { i as int }).map_values(
                |v: Vault| document_of(v),
            ));
        }
        if index >= n {
            docs.push(self.document());
            assert(order[k] == *self);
        }
        assert(docs@ =~= order.map_values(|v: Vault| document_of(v)));
        Ok(docs)
    }

    /// This vault anchored at the directory of its configuration file.
    pub fn set_resolved_at(self, vault_file: &str) -> (r: Result<Vault, VaultError>)
        ensures
            match parent_of(vault_file@) {
                Some(dir) => r matches Ok(w) && w == (Vault {
                    resolved_at: w.resolved_at,
                    vault_path: w.vault_path,
                    ..self
                }) && w.resolved_at@ == dir && w.vault_path is Some && w.vault_path->Some_0@
                    == vault_file@,
                None => r matches Err(VaultError::InvalidVaultPath { path }) && path@ == vault_file@,
            },
    {
        let mut v = self;
        match parent_dir(vault_file) {
            Some(dir) => {
                v.resolved_at = dir;
                v.vault_path = Some(String::from_str(vault_file));
                Ok(v)
            },
            None => Err(VaultError::InvalidVaultPath { path: String::from_str(vault_file) }),
        }
    }
}

/// A freshly read document as a vault: a leader at index 0, without
/// partitions, anchored at the current directory.
pub fn vault_from_document(doc: VaultDocument) -> (r: Vault)
    ensures
        document_of(r) == doc,
        r.kind == (VaultKind::Leader { index: 0 }),
        r.partitions@.len() == 0,
        r.resolved_at@ == "."@,
        r.vault_path is None,
{
    Vault {
        name: doc.name,
        kind: VaultKind::Leader { index: 0 },
        partitions: Vec::new(),
        resolved_at: String::from_str("."),
        vault_path: None,
        secrets: doc.secrets,
        gpg_keys: doc.gpg_keys,
        recipients: doc.recipients,
    }
}

/// The vaults of a configuration file read from `path`, each anchored at the
/// file's directory; the first is validated.
#[verifier::loop_isolation(false)]
pub fn from_documents(docs: Vec<VaultDocument>, path: &str) -> (r: Result<Vec<Vault>, VaultError>)
    ensures
        docs@.len() > 0 && parent_of(path@) is None ==> (r matches Err(
            VaultError::InvalidVaultPath { path: p },
        ) && p@ == path@),
        docs@.len() == 0 || parent_of(path@) is Some ==> (r matches Ok(vs) && vs@.len() == docs@.len()
            && forall|i: int|
            0 <= i < vs@.len() ==> {
                &&& document_of(#[trigger] vs@[i]) == docs@[i]
                &&& vs@[i].kind == (VaultKind::Leader { index: 0 })
                &&& vs@[i].partitions@.len() == 0
                &&& Some(vs@[i].resolved_at@) == parent_of(path@)
                &&& vs@[i].vault_path is Some
                &&& vs@[i].vault_path->Some_0@ == path@
            }),
{
    let ghost orig = docs@;
    let mut rest = docs;
    let mut out: Vec<Vault> = Vec::new();
    while rest.len() > 0
        invariant
            out@.len() + rest@.len() == orig.len(),
            rest@ == orig.subrange(out@.len() as int, orig.len() as int),
            forall|i: int|
                0 <= i < out@.len() ==> {
                    &&& document_of(#[trigger] out@[i]) == orig[i]
                    &&& out@[i].kind == (VaultKind::Leader { index: 0 })
                    &&& out@[i].partitions@.len() == 0
                    &&& Some(out@[i].resolved_at@) == parent_of(path@)
                    &&& out@[i].vault_path is Some
                    &&& out@[i].vault_path->Some_0@ == path@
                },
        decreases rest@.len(),
    {
        let doc = rest.remove(0);
        let v = vault_from_document(doc);
        match v.set_resolved_at(path) {
            Ok(w) => {
                out.push(w);
            },
            Err(e) => {
                return Err(e);
            },
        }
        assert(rest@ =~= orig.subrange(out@.len() as int, orig.len() as int));
    }
    if out.len() > 0 {
        proof {
            lemma_lone_vault_consistent(out@[0]);
        }
        match out[0].validate() {
            Err(e) => {
                return Err(e);
            },
            Ok(()) => {},
        }
    }
    Ok(out)
}

} // verus!
