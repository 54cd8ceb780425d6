//! The vault configuration model: a leader vault with its partitions, the
//! paths it resolves, and the invariants that keep partitions apart.
use vstd::prelude::*;
use crate::error::VaultError;
use crate::path::{
    is_absolute, join_path, lemma_normalize_idempotent, lemma_views_push, normalize, normalized,
    path_join, path_starts_with, starts_with, views,
};

verus! {

/// Whether a vault is the one selected for a command (and which document of
/// its configuration file it came from), or a partition of that leader.
#[derive(Debug, Clone, Copy, PartialEq, Eq)]
pub enum VaultKind {
    Leader { index: usize },
    Partition,
}

impl Default for VaultKind {
    fn default() -> (r: Self)
        ensures
            r == (VaultKind::Leader { index: 0 }),
    {
        VaultKind::Leader { index: 0 }
    }
}

/// A vault: a directory of encrypted resources and the file that lists who
/// they are encrypted for. Relative paths are resolved against `resolved_at`.
#[derive(Debug, PartialEq)]
pub struct Vault {
    pub name: Option<String>,
    pub kind: VaultKind,
    pub partitions: Vec<Vault>,
    pub resolved_at: String,
    pub vault_path: Option<String>,
    pub secrets: String,
    pub gpg_keys: Option<String>,
    pub recipients: String,
}

/// A copy of `v` with its partitions copied in turn.
fn copy_vault(v: &Vault) -> (r: Vault)
    ensures
        r == (Vault { partitions: r.partitions, ..*v }),
        r.partitions@.len() == v.partitions@.len(),
    decreases v,
{
    let mut partitions: Vec<Vault> = Vec::new();
    let mut i: usize = 0;
    while i < v.partitions.len()
        invariant
            i <= v.partitions@.len(),
            partitions@.len() == i,
        decreases v.partitions.len() - i,
    {
        proof {
            vstd::std_specs::vec::axiom_vec_index_decreases(v.partitions, i as int);
        }
        partitions.push(copy_vault(&v.partitions[i]));
        i = i + 1;
    }
    Vault {
        name: match &v.name {
            Some(n) => Some(n.clone()),
            None => None,
        },
        kind: v.kind,
        partitions,
        resolved_at: v.resolved_at.clone(),
        vault_path: match &v.vault_path {
            Some(p) => Some(p.clone()),
            None => None,
        },
        secrets: v.secrets.clone(),
        gpg_keys: match &v.gpg_keys {
            Some(g) => Some(g.clone()),
            None => None,
        },
        recipients: v.recipients.clone(),
    }
}

impl Clone for Vault {
    /// A copy with the same fields; partitions are copied one by one.
    fn clone(&self) -> (r: Self)
        ensures
            r == (Vault { partitions: r.partitions, ..*self }),
            r.partitions@.len() == self.partitions@.len(),
    {
        copy_vault(self)
    }
}

/// The default location of the recipients file.
pub fn recipients_default() -> (r: String)
    ensures
        r@ == ".gpg-id"@,
{
    String::from_str(".gpg-id")
}

/// The default secrets directory.
pub fn secrets_default() -> (r: String)
    ensures
        r@ == "."@,
{
    String::from_str(".")
}

impl Default for Vault {
    fn default() -> (r: Self)
        ensures
            r.name is None,
            r.kind == (VaultKind::Leader { index: 0 }),
            r.partitions@.len() == 0,
            r.resolved_at@ == "."@,
            r.vault_path is None,
            r.secrets@ == "."@,
            r.gpg_keys is None,
            r.recipients@ == ".gpg-id"@,
    {
        Vault {
            kind: VaultKind::Leader { index: 0 },
            partitions: Vec::new(),
            vault_path: None,
            name: None,
            secrets: secrets_default(),
            resolved_at: secrets_default(),
            gpg_keys: None,
            recipients: recipients_default(),
        }
    }
}

/// `p` resolved against the vault's anchor directory, normalized.
pub open spec fn absolute_of(v: Vault, p: Seq<char>) -> Seq<char> {
    normalized(path_join(v.resolved_at@, p))
}

/// Where a vault keeps its encrypted resources.
pub open spec fn secrets_path_of(v: Vault) -> Seq<char> {
    absolute_of(v, v.secrets@)
}

/// Where a vault keeps its recipients list.
pub open spec fn recipients_path_of(v: Vault) -> Seq<char> {
    absolute_of(v, v.recipients@)
}

/// The secrets directories of the partitions, then that of the vault itself.
pub open spec fn all_secrets_paths(v: Vault) -> Seq<Seq<char>> {
    v.partitions@.map_values(|p: Vault| secrets_path_of(p)).push(secrets_path_of(v))
}

/// The recipients files of the partitions, then that of the vault itself.
pub open spec fn all_recipients_paths(v: Vault) -> Seq<Seq<char>> {
    v.partitions@.map_values(|p: Vault| recipients_path_of(p)).push(recipients_path_of(v))
}

/// How a secrets directory is shown when it overlaps another: relative
/// paths are written below `.`.
pub open spec fn shown_dir(p: Seq<char>) -> Seq<char> {
    if is_absolute(p) {
        p
    } else {
        "./"@ + p
    }
}

/// Directory `i` of `paths` lies at or below the different directory `j`.
pub open spec fn overlaps(paths: Seq<Seq<char>>, i: int, j: int) -> bool {
    0 <= i < paths.len() && 0 <= j < paths.len() && i != j && path_starts_with(paths[i], paths[j])
}

/// `(i, j)` comes before `(a, b)` in row-major order.
pub open spec fn pair_before(i: int, j: int, a: int, b: int) -> bool {
    i < a || (i == a && j < b)
}

/// Some directory of `paths` lies at or below another.
pub open spec fn has_overlap(paths: Seq<Seq<char>>) -> bool {
    exists|i: int, j: int| overlaps(paths, i, j)
}

/// Entry `j` repeats an earlier entry.
pub open spec fn repeats(paths: Seq<Seq<char>>, j: int) -> bool {
    0 <= j < paths.len() && exists|i: int| 0 <= i < j && paths[i] == paths[j]
}

/// Some entry of `paths` occurs twice.
pub open spec fn has_repeat(paths: Seq<Seq<char>>) -> bool {
    exists|j: int| repeats(paths, j)
}

/// The invariants of a configuration: no secrets directory lies inside
/// another, and no two vaults share a recipients file.
pub open spec fn is_consistent(v: Vault) -> bool {
    !has_overlap(all_secrets_paths(v)) && !has_repeat(all_recipients_paths(v))
}

/// The error that validation reports for `v`, if any.
pub open spec fn validation_error(v: Vault, e: VaultError) -> bool {
    let sp = all_secrets_paths(v);
    let rp = all_recipients_paths(v);
    if has_overlap(sp) {
        exists|i: int, j: int|
            #![trigger overlaps(sp, i, j)]
            {
                &&& overlaps(sp, i, j)
                &&& forall|a: int, b: int| pair_before(a, b, i, j) ==> !overlaps(sp, a, b)
                &&& match e {
                    VaultError::Overlap { contained, container } => contained@ == shown_dir(sp[i])
                        && container@ == shown_dir(sp[j]),
                    _ => false,
                }
            }
    } else {
        exists|j: int|
            #![trigger repeats(rp, j)]
            {
                &&& repeats(rp, j)
                &&& forall|b: int| b < j ==> !repeats(rp, b)
                &&& match e {
                    VaultError::DuplicateRecipients { path } => path@ == rp[j],
                    _ => false,
                }
            }
    }
}

/// A vault without partitions satisfies the invariants.
pub proof fn lemma_lone_vault_consistent(v: Vault)
    requires
        v.partitions@.len() == 0,
    ensures
        is_consistent(v),
{
    assert forall|i: int, j: int| !overlaps(all_secrets_paths(v), i, j) by {}
    assert forall|j: int| !repeats(all_recipients_paths(v), j) by {}
}

/// `v` with another kind.
pub open spec fn with_kind(v: Vault, kind: VaultKind) -> Vault {
    Vault { kind, ..v }
}

impl Vault {
    /// `path` resolved against this vault's anchor directory, normalized.
    pub fn absolute_path(&self, path: &str) -> (r: String)
        ensures
            r@ == absolute_of(*self, path@),
    {
        let joined = join_path(self.resolved_at.as_str(), path);
        normalize(joined.as_str())
    }

    /// The directory that holds this vault's encrypted resources.
    pub fn secrets_path(&self) -> (r: String)
        ensures
            r@ == secrets_path_of(*self),
    {
        let p = self.absolute_path(self.secrets.as_str());
        proof {
            lemma_normalize_idempotent(path_join(self.resolved_at@, self.secrets@));
        }
        normalize(p.as_str())
    }

    /// The file that lists this vault's recipients.
    pub fn recipients_path(&self) -> (r: String)
        ensures
            r@ == recipients_path_of(*self),
    {
        self.absolute_path(self.recipients.as_str())
    }

    /// `syv://`, then the name followed by `@` when there is one, then the
    /// secrets directory.
    pub fn url(&self) -> (r: String)
        ensures
            r@ == "syv://"@ + match self.name {
                Some(n) => n@ + "@"@,
                None => Seq::<char>::empty(),
            } + secrets_path_of(*self),
    {
        let mut r = String::from_str("syv://");
        match &self.name {
            Some(n) => {
                r.append(n.as_str());
                r.append("@");
            },
            None => {
                assert(r@ + Seq::<char>::empty() =~= r@);
            },
        }
        let sp = self.secrets_path();
        r.append(sp.as_str());
        r
    }

    /// The directory holding exported recipient keys, resolved; an error
    /// naming the configuration file when none is configured.
    pub fn gpg_keys_dir(&self) -> (r: Result<String, VaultError>)
        ensures
            match self.gpg_keys {
                Some(dir) => r matches Ok(p) && p@ == absolute_of(*self, dir@),
                None => r matches Err(VaultError::NoGpgKeysDirectory { vault_path }) && vault_path@
                    == match self.vault_path {
                    Some(vp) => vp@,
                    None => "<unknown>"@,
                },
            },
    {
        match &self.gpg_keys {
            Some(dir) => Ok(self.absolute_path(dir.as_str())),
            None => {
                let vault_path = match &self.vault_path {
                    Some(vp) => vp.clone(),
                    None => String::from_str("<unknown>"),
                };
                Err(VaultError::NoGpgKeysDirectory { vault_path })
            },
        }
    }

    /// Checks that no secrets directory lies inside another (the leader's
    /// included) and that no two vaults share a recipients file.
    pub fn validate(&self) -> (r: Result<(), VaultError>)
        ensures
            r is Ok <==> is_consistent(*self),
            r matches Err(e) ==> validation_error(*self, e),
    {
        let ghost sp_model = all_secrets_paths(*self);
        let ghost rp_model = all_recipients_paths(*self);
        let mut secrets: Vec<String> = Vec::new();
        let mut recipients: Vec<String> = Vec::new();
        let mut k: usize = 0;
        while k < self.partitions.len()
            invariant
                k <= self.partitions.len(),
                sp_model.len() == self.partitions.len() + 1,
                rp_model.len() == self.partitions.len() + 1,
                sp_model == all_secrets_paths(*self),
                rp_model == all_recipients_paths(*self),
                views(secrets@) =~= sp_model.subrange(0, k as int),
                views(recipients@) =~= rp_model.subrange(0, k as int),
            decreases self.partitions.len() - k,
        {
            let sp = self.partitions[k].secrets_path();
            let rp = self.partitions[k].recipients_path();
            assert(sp_model[k as int] == sp@);
            assert(rp_model[k as int] == rp@);
            proof {
                lemma_views_push(secrets@, sp);
                lemma_views_push(recipients@, rp);
                assert(sp_model.subrange(0, k as int).push(sp@) =~= sp_model.subrange(0, k as int + 1));
                assert(rp_model.subrange(0, k as int).push(rp@) =~= rp_model.subrange(0, k as int + 1));
            }
            secrets.push(sp);
            recipients.push(rp);
            k = k + 1;
        }
        let own_sp = self.secrets_path();
        let own_rp = self.recipients_path();
        assert(sp_model[k as int] == own_sp@);
        assert(rp_model[k as int] == own_rp@);
        proof {
            lemma_views_push(secrets@, own_sp);
            lemma_views_push(recipients@, own_rp);
            assert(sp_model.subrange(0, k as int).push(own_sp@) =~= sp_model);
            assert(rp_model.subrange(0, k as int).push(own_rp@) =~= rp_model);
        }
        secrets.push(own_sp);
        recipients.push(own_rp);
        assert(views(secrets@) =~= sp_model);
        assert(views(recipients@) =~= rp_model);
        if self.partitions.len() == 0 {
            assert forall|i: int, j: int| !overlaps(sp_model, i, j) by {}
            assert forall|j: int| !repeats(rp_model, j) by {}
            return Ok(());
        }
        let n = secrets.len();
        let mut i: usize = 0;
        while i < n
            invariant
                n == secrets.len(),
                i <= n,
                views(secrets@) == sp_model,
                sp_model == all_secrets_paths(*self),
                rp_model == all_recipients_paths(*self),
                forall|a: int, b: int| 0 <= a < i ==> !overlaps(sp_model, a, b),
            decreases n - i,
        {
            let mut j: usize = 0;
            while j < n
                invariant
                    n == secrets.len(),
                    i < n,
                    j <= n,
                    views(secrets@) == sp_model,
                    sp_model == all_secrets_paths(*self),
                    rp_model == all_recipients_paths(*self),
                    forall|a: int, b: int| 0 <= a < i ==> !overlaps(sp_model, a, b),
                    forall|b: int| 0 <= b < j ==> !overlaps(sp_model, i as int, b),
                decreases n - j,
            {
                if i != j && starts_with(secrets[i].as_str(), secrets[j].as_str()) {
                    assert(secrets@[i as int]@ == views(secrets@)[i as int]);
                    assert(secrets@[j as int]@ == views(secrets@)[j as int]);
                    assert(overlaps(sp_model, i as int, j as int));
                    assert(has_overlap(sp_model));
                    let contained = shown(&secrets[i]);
                    let container = shown(&secrets[j]);
                    let e = VaultError::Overlap { contained, container };
                    assert forall|a: int, b: int| pair_before(a, b, i as int, j as int) implies !overlaps(
                        sp_model,
                        a,
                        b,
                    ) by {
                        if a == i {
                            if 0 <= b < j {
                            } else if b < 0 {
                            }
                        }
                    }
                    assert(validation_error(*self, e));
                    return Err(e);
                }
                j = j + 1;
            }
            assert forall|a: int, b: int| 0 <= a < i + 1 implies !overlaps(sp_model, a, b) by {
                if a == i {
                    if !(0 <= b < n) {
                    }
                }
            }
            i = i + 1;
        }
        assert(!has_overlap(sp_model)) by {
            assert forall|a: int, b: int| !overlaps(sp_model, a, b) by {
                if 0 <= a < n {
                }
            }
        }
        let mut j: usize = 0;
        while j < n
            invariant
                !has_overlap(sp_model),
                sp_model == all_secrets_paths(*self),
                rp_model == all_recipients_paths(*self),
                n == recipients.len(),
                j <= n,
                views(recipients@) == rp_model,
                forall|b: int| b < j ==> !repeats(rp_model, b),
            decreases n - j,
        {
            let mut i: usize = 0;
            while i < j
                invariant
                    n == recipients.len(),
                    i <= j < n,
                    views(recipients@) == rp_model,
                    !has_overlap(sp_model),
                    sp_model == all_secrets_paths(*self),
                    rp_model == all_recipients_paths(*self),
                    forall|b: int| b < j ==> !repeats(rp_model, b),
                    forall|a: int| 0 <= a < i ==> rp_model[a] != rp_model[j as int],
                decreases j - i,
            {
                assert(recipients@[i as int]@ == views(recipients@)[i as int]);
                assert(recipients@[j as int]@ == views(recipients@)[j as int]);
                if recipients[i] == recipients[j] {
                    assert(repeats(rp_model, j as int));
                    let e = VaultError::DuplicateRecipients { path: recipients[j].clone() };
                    assert(validation_error(*self, e));
                    return Err(e);
                }
                i = i + 1;
            }
            j = j + 1;
        }
        Ok(())
    }
}

/// A secrets directory as overlap messages show it.
fn shown(p: &String) -> (r: String)
    ensures
        r@ == shown_dir(p@),
{
    let s = p.as_str();
    if s.unicode_len() > 0 && s.get_char(0) == '/' {
        p.clone()
    } else {
        let mut r = String::from_str("./");
        r.append(s);
        r
    }
}

} // verus!
