//! Recipients of a vault: the diagnostics of resolving them in a keyring,
//! and the canonical content of the recipients file.
use vstd::prelude::*;
use crate::path::{join_path, path_join, views};
use crate::text::{decimal, decimal_string};
use crate::error::VaultError;
use crate::vault::{absolute_of, recipients_path_of, Vault};

verus! {

/// The line that explains where the key file of a missing id would be.
pub open spec fn key_file_info(v: Vault, id: Seq<char>, file_exists: bool) -> Seq<char> {
    match v.gpg_keys {
        Some(dir) => (if file_exists {
            "Import key-file using 'gpg --import "@
        } else {
            "Key-file does not exist at "@
        }) + "'"@ + path_join(absolute_of(v, dir@), id) + "'"@,
        None => "No GPG keys directory"@,
    }
}

/// One line per id among the first `n` that was not found.
pub open spec fn missing_section(
    v: Vault,
    ids: Seq<Seq<char>>,
    found: Seq<bool>,
    file_exists: Seq<bool>,
    n: nat,
) -> Seq<char>
    decreases n,
{
    if n == 0 {
        Seq::empty()
    } else {
        let i = n - 1;
        missing_section(v, ids, found, file_exists, i as nat) + if found[i] {
            Seq::empty()
        } else {
            "\n"@ + ids[i] + " ("@ + key_file_info(v, ids[i], file_exists[i]) + ")"@
        }
    }
}

/// The first `n` key descriptions, each on a line of its own.
pub open spec fn lines_section(lines: Seq<Seq<char>>, n: nat) -> Seq<char>
    decreases n,
{
    if n == 0 {
        Seq::empty()
    } else {
        lines_section(lines, (n - 1) as nat) + "\n"@ + lines[n - 1]
    }
}

/// An integer in decimal, with a leading `-` when negative.
pub open spec fn signed_decimal(x: int) -> Seq<char> {
    if x < 0 {
        "-"@ + decimal((-x) as nat)
    } else {
        decimal(x as nat)
    }
}

/// The diagnostic for a lookup of `ids` (labelled `kind`) in which `found`
/// tells which ids were found and `key_lines` describes the keys found.
pub open spec fn lookup_report(
    v: Vault,
    kind: Seq<char>,
    ids: Seq<Seq<char>>,
    found: Seq<bool>,
    file_exists: Seq<bool>,
    key_lines: Seq<Seq<char>>,
) -> Seq<char> {
    let diff = ids.len() - key_lines.len();
    let head = if diff > 0 {
        "Didn't find the key for "@ + decimal(diff as nat) + " "@ + kind
            + "(s) in the gpg database."@ + match v.gpg_keys {
            Some(dir) => " This might mean it wasn't imported yet from the '"@ + absolute_of(
                v,
                dir@,
            ) + "' directory."@,
            None => Seq::empty(),
        } + "\nThe following "@ + kind + "(s) could not be found in the gpg key database:"@
            + missing_section(v, ids, found, file_exists, ids.len())
    } else {
        "Found "@ + signed_decimal(diff)
            + " additional keys to encrypt for, which may indicate an unusual "@ + kind
            + "s specification in the recipients file at '"@ + recipients_path_of(v) + "'"@
    };
    if key_lines.len() > 0 {
        head + "\n"@ + "All "@ + kind + "s found in gpg database:"@ + lines_section(
            key_lines,
            key_lines.len(),
        )
    } else {
        head
    }
}

impl Vault {
    /// Encryption needs at least one recipient: an error naming the
    /// configured recipients file when `fingerprints` is empty.
    pub fn check_recipients_present(&self, fingerprints: &Vec<String>) -> (r: Result<(), VaultError>)
        ensures
            fingerprints@.len() > 0 <==> r is Ok,
            r matches Err(e) ==> e == (VaultError::NoRecipients { recipients: self.recipients }),
    {
        if fingerprints.len() == 0 {
            return Err(VaultError::NoRecipients { recipients: self.recipients.clone() });
        }
        Ok(())
    }

    /// Where the exported key of `id` is kept, when a key directory is
    /// configured.
    pub fn key_file_path(&self, id: &str) -> (r: Option<String>)
        ensures
            match self.gpg_keys {
                Some(dir) => r is Some && r->Some_0@ == path_join(absolute_of(*self, dir@), id@),
                None => r is None,
            },
    {
        match &self.gpg_keys {
            Some(dir) => {
                let base = self.absolute_path(dir.as_str());
                Some(join_path(base.as_str(), id))
            },
            None => None,
        }
    }

    /// The line of a missing id (see `missing_section`).
    fn missing_entry(&self, id: &str, file_exists: bool) -> (r: String)
        ensures
            r@ == "\n"@ + id@ + " ("@ + key_file_info(*self, id@, file_exists) + ")"@,
    {
        let mut msg = String::from_str("\n");
        msg.append(id);
        msg.append(" (");
        let mut info = String::new();
        match self.key_file_path(id) {
            Some(path) => {
                if file_exists {
                    info.append("Import key-file using 'gpg --import ");
                } else {
                    info.append("Key-file does not exist at ");
                }
                info.append("'");
                info.append(path.as_str());
                info.append("'");
            },
            None => {
                info.append("No GPG keys directory");
            },
        }
        assert(info@ =~= key_file_info(*self, id@, file_exists));
        msg.append(info.as_str());
        msg.append(")");
        msg
    }

    /// The lines of the missing ids (see `missing_section`).
    fn missing_lines(&self, ids: &Vec<String>, found: &Vec<bool>, key_file_exists: &Vec<bool>) -> (r:
        String)
        requires
            found@.len() == ids@.len(),
            key_file_exists@.len() == ids@.len(),
        ensures
            r@ == missing_section(*self, views(ids@), found@, key_file_exists@, ids@.len()),
    {
        let ghost idv = views(ids@);
        let mut msg = String::new();
        let mut i: usize = 0;
        while i < ids.len()
            invariant
                found@.len() == ids@.len(),
                key_file_exists@.len() == ids@.len(),
                idv == views(ids@),
                i <= ids@.len(),
                msg@ == missing_section(*self, idv, found@, key_file_exists@, i as nat),
            decreases ids.len() - i,
        {
            let ghost before = msg@;
            if !found[i] {
                let entry = self.missing_entry(ids[i].as_str(), key_file_exists[i]);
                msg.append(entry.as_str());
            } else {
                assert(before + Seq::<char>::empty() =~= before);
            }
            i = i + 1;
        }
        msg
    }

    /// The outcome of looking up `ids` (of the kind `kind`, such as
    /// "recipient") in a keyring: success when as many keys were found as
    /// were asked for, else the diagnostic `lookup_report`. `found[i]` tells
    /// whether `ids[i]` was found, `key_file_exists[i]` whether its key file
    /// exists, and `key_lines` describes each key found.
    pub fn check_key_lookup(
        &self,
        kind: &str,
        ids: &Vec<String>,
        found: &Vec<bool>,
        key_file_exists: &Vec<bool>,
        key_lines: &Vec<String>,
    ) -> (r: Result<(), String>)
        requires
            found@.len() == ids@.len(),
            key_file_exists@.len() == ids@.len(),
        ensures
            r is Ok <==> key_lines@.len() == ids@.len(),
            r matches Err(m) ==> m@ == lookup_report(
                *self,
                kind@,
                views(ids@),
                found@,
                key_file_exists@,
                views(key_lines@),
            ),
    {
        if key_lines.len() == ids.len() {
            return Ok(());
        }
        let head = if ids.len() > key_lines.len() {
            self.missing_keys_head(kind, ids, found, key_file_exists, key_lines)
        } else {
            self.extra_keys_head(kind, ids, key_lines)
        };
        let mut msg = head;
        if key_lines.len() > 0 {
            msg.append("\n");
            msg.append("All ");
            msg.append(kind);
            msg.append("s found in gpg database:");
            let listed = described_keys(key_lines);
            msg.append(listed.as_str());
        }
        Err(msg)
    }

    /// The diagnostic's first part when keys are missing.
    fn missing_keys_head(
        &self,
        kind: &str,
        ids: &Vec<String>,
        found: &Vec<bool>,
        key_file_exists: &Vec<bool>,
        key_lines: &Vec<String>,
    ) -> (r: String)
        requires
            found@.len() == ids@.len(),
            key_file_exists@.len() == ids@.len(),
            ids@.len() > key_lines@.len(),
        ensures
            r@ == "Didn't find the key for "@ + decimal((ids@.len() - key_lines@.len()) as nat) + " "@
                + kind@ + "(s) in the gpg database."@ + match self.gpg_keys {
                Some(dir) => " This might mean it wasn't imported yet from the '"@ + absolute_of(
                    *self,
                    dir@,
                ) + "' directory."@,
                None => Seq::empty(),
            } + "\nThe following "@ + kind@ + "(s) could not be found in the gpg key database:"@
                + missing_section(*self, views(ids@), found@, key_file_exists@, ids@.len()),
    {
        let diff = ids.len() - key_lines.len();
        let mut msg = String::from_str("Didn't find the key for ");
        msg.append(decimal_string(diff).as_str());
        msg.append(" ");
        msg.append(kind);
        msg.append("(s) in the gpg database.");
        let mut hint = String::new();
        match &self.gpg_keys {
            Some(dir) => {
                hint.append(" This might mean it wasn't imported yet from the '");
                hint.append(self.absolute_path(dir.as_str()).as_str());
                hint.append("' directory.");
            },
            None => {},
        }
        msg.append(hint.as_str());
        msg.append("\nThe following ");
        msg.append(kind);
        msg.append("(s) could not be found in the gpg key database:");
        let lines = self.missing_lines(ids, found, key_file_exists);
        msg.append(lines.as_str());
        msg
    }

    /// The diagnostic's first part when more keys than ids were found.
    fn extra_keys_head(&self, kind: &str, ids: &Vec<String>, key_lines: &Vec<String>) -> (r: String)
        requires
            ids@.len() < key_lines@.len(),
        ensures
            r@ == "Found "@ + signed_decimal(ids@.len() - key_lines@.len())
                + " additional keys to encrypt for, which may indicate an unusual "@ + kind@
                + "s specification in the recipients file at '"@ + recipients_path_of(*self) + "'"@,
    {
        let mut msg = String::from_str("Found ");
        msg.append("-");
        msg.append(decimal_string(key_lines.len() - ids.len()).as_str());
        msg.append(" additional keys to encrypt for, which may indicate an unusual ");
        msg.append(kind);
        msg.append("s specification in the recipients file at '");
        msg.append(self.recipients_path().as_str());
        msg.append("'");
        msg
    }
}

/// Each key description on a line of its own (see `lines_section`).
fn described_keys(key_lines: &Vec<String>) -> (r: String)
    ensures
        r@ == lines_section(views(key_lines@), key_lines@.len()),
{
    let ghost lv = views(key_lines@);
    let mut msg = String::new();
    let mut j: usize = 0;
    while j < key_lines.len()
        invariant
            lv == views(key_lines@),
            j <= key_lines@.len(),
            msg@ == lines_section(lv, j as nat),
        decreases key_lines.len() - j,
    {
        msg.append("\n");
        msg.append(key_lines[j].as_str());
        j = j + 1;
    }
    msg
}

/// Byte order of strings: the first differing character decides, and a
/// proper prefix comes first.
pub open spec fn lex_lt(a: Seq<char>, b: Seq<char>) -> bool
    decreases a.len(),
{
    if a.len() == 0 {
        b.len() > 0
    } else if b.len() == 0 {
        false
    } else if a[0] != b[0] {
        a[0] < b[0]
    } else {
        lex_lt(a.drop_first(), b.drop_first())
    }
}

/// Strictly ascending, hence without duplicates.
pub open spec fn strictly_sorted(s: Seq<Seq<char>>) -> bool {
    forall|i: int, j: int| 0 <= i < j < s.len() ==> lex_lt(#[trigger] s[i], #[trigger] s[j])
}

/// The file text of a recipients list: each entry followed by a newline.
pub open spec fn recipients_text(list: Seq<Seq<char>>) -> Seq<char>
    decreases list.len(),
{
    if list.len() == 0 {
        Seq::empty()
    } else {
        recipients_text(list.drop_last()) + list.last() + "\n"@
    }
}

/// Byte order is total.
proof fn lemma_lex_total(a: Seq<char>, b: Seq<char>)
    ensures
        a == b || lex_lt(a, b) || lex_lt(b, a),
    decreases a.len(),
{
    if a.len() > 0 && b.len() > 0 && a[0] == b[0] {
        lemma_lex_total(a.drop_first(), b.drop_first());
        if a.drop_first() == b.drop_first() {
            assert(a =~= seq![a[0]] + a.drop_first());
            assert(b =~= seq![b[0]] + b.drop_first());
        }
    } else if a.len() == 0 && b.len() == 0 {
        assert(a =~= b);
    }
}

/// Byte order is transitive.
proof fn lemma_lex_transitive(a: Seq<char>, b: Seq<char>, c: Seq<char>)
    requires
        lex_lt(a, b),
        lex_lt(b, c),
    ensures
        lex_lt(a, c),
    decreases a.len(),
{
    if a.len() > 0 && b.len() > 0 && c.len() > 0 && a[0] == b[0] && b[0] == c[0] {
        lemma_lex_transitive(a.drop_first(), b.drop_first(), c.drop_first());
    }
}

/// Whether `a` comes strictly before `b` in byte order.
pub fn string_less(a: &String, b: &String) -> (r: bool)
    ensures
        r == lex_lt(a@, b@),
{
    let n = a.as_str().unicode_len();
    let m = b.as_str().unicode_len();
    let mut i: usize = 0;
    assert(a@.subrange(0, n as int) =~= a@);
    assert(b@.subrange(0, m as int) =~= b@);
    while i < n && i < m
        invariant
            n == a@.len(),
            m == b@.len(),
            i <= n,
            i <= m,
            lex_lt(a@, b@) == lex_lt(a@.subrange(i as int, n as int), b@.subrange(i as int, m as int)),
        decreases n - i,
    {
        let x = a.as_str().get_char(i);
        let y = b.as_str().get_char(i);
        let ghost sa = a@.subrange(i as int, n as int);
        let ghost sb = b@.subrange(i as int, m as int);
        assert(sa[0] == x && sb[0] == y);
        if x != y {
            return x < y;
        }
        assert(sa.drop_first() =~= a@.subrange(i as int + 1, n as int));
        assert(sb.drop_first() =~= b@.subrange(i as int + 1, m as int));
        i = i + 1;
    }
    i == n && i < m
}

/// Sorts `list` ascending in byte order and removes duplicates.
pub fn sort_dedup(list: &mut Vec<String>)
    ensures
        strictly_sorted(views(final(list)@)),
        forall|x: Seq<char>| views(final(list)@).contains(x) <==> views(old(list)@).contains(x),
{
    let ghost orig = views(list@);
    let mut out: Vec<String> = Vec::new();
    let mut k: usize = 0;
    while k < list.len()
        invariant
            k <= list@.len(),
            orig == views(list@),
            strictly_sorted(views(out@)),
            forall|x: Seq<char>| views(out@).contains(x) <==> orig.subrange(0, k as int).contains(x),
        decreases list.len() - k,
    {
        let item = list[k].clone();
        let ghost ov = views(out@);
        let mut p: usize = 0;
        while p < out.len() && string_less(&out[p], &item)
            invariant
                p <= out@.len(),
                ov == views(out@),
                forall|i: int| 0 <= i < p ==> lex_lt(#[trigger] ov[i], item@),
            decreases out.len() - p,
        {
            p = p + 1;
        }
        let ghost next = orig.subrange(0, k as int + 1);
        assert(next =~= orig.subrange(0, k as int).push(item@));
        if p < out.len() && out[p] == item {
            assert(ov[p as int] == item@);
            assert forall|x: Seq<char>| views(out@).contains(x) <==> next.contains(x) by {
                if next.contains(x) && x == item@ {
                    assert(ov[p as int] == x);
                }
                if orig.subrange(0, k as int).contains(x) {
                    let w = choose|w: int| 0 <= w < k && orig.subrange(0, k as int)[w] == x;
                    assert(next[w] == x);
                }
            }
        } else {
            proof {
                if p < out.len() {
                    lemma_lex_total(ov[p as int], item@);
                }
            }
            out.insert(p, item);
            let ghost nv = views(out@);
            assert(nv =~= ov.insert(p as int, item@));
            assert forall|i: int, j: int| 0 <= i < j < nv.len() implies lex_lt(#[trigger] nv[i], #[trigger] nv[j]) by {
                if j < p {
                } else if j == p {
                } else if i < p {
                    if j == p + 1 {
                        lemma_lex_transitive(nv[i], item@, nv[j]);
                    } else {
                        lemma_lex_transitive(nv[i], item@, ov[p as int]);
                        lemma_lex_transitive(nv[i], ov[p as int], nv[j]);
                    }
                } else if i == p {
                    if j > p + 1 {
                        lemma_lex_transitive(item@, ov[p as int], nv[j]);
                    }
                } else {
                }
            }
            assert forall|x: Seq<char>| nv.contains(x) <==> next.contains(x) by {
                if nv.contains(x) {
                    let w = choose|w: int| 0 <= w < nv.len() && nv[w] == x;
                    if w == p {
                        assert(next[k as int] == x);
                    } else {
                        if w < p {
                            assert(ov[w] == x);
                        } else {
                            assert(ov[w - 1] == x);
                        }
                        assert(ov.contains(x));
                        assert(orig.subrange(0, k as int).contains(x));
                        let w2 = choose|w2: int| 0 <= w2 < k && orig.subrange(0, k as int)[w2] == x;
                        assert(next[w2] == x);
                    }
                }
                if next.contains(x) {
                    if x == item@ {
                        assert(nv[p as int] == x);
                    } else {
                        assert(orig.subrange(0, k as int).contains(x));
                        assert(ov.contains(x));
                        let w = choose|w: int| 0 <= w < ov.len() && ov[w] == x;
                        if w < p {
                            assert(nv[w] == x);
                        } else {
                            assert(nv[w + 1] == x);
                        }
                    }
                }
            }
        }
        k = k + 1;
    }
    assert(orig.subrange(0, k as int) =~= orig);
    *list = out;
}

/// The text of a recipients file for `list`: each entry on its own line.
pub fn recipients_file_text(list: &Vec<String>) -> (r: String)
    ensures
        r@ == recipients_text(views(list@)),
{
    let mut text = String::new();
    let mut i: usize = 0;
    while i < list.len()
        invariant
            i <= list@.len(),
            text@ == recipients_text(views(list@).subrange(0, i as int)),
        decreases list.len() - i,
    {
        let ghost next = views(list@).subrange(0, i as int + 1);
        assert(next.drop_last() =~= views(list@).subrange(0, i as int));
        text.append(list[i].as_str());
        text.append("\n");
        i = i + 1;
    }
    assert(views(list@).subrange(0, i as int) =~= views(list@));
    text
}

impl Vault {
    /// Brings `recipients` to canonical form (ascending, no duplicates) and
    /// returns the file it is written to, whose text is then
    /// `recipients_file_text(recipients)`.
    pub fn write_recipients_list(&self, recipients: &mut Vec<String>) -> (r: String)
        ensures
            strictly_sorted(views(final(recipients)@)),
            forall|x: Seq<char>|
                views(final(recipients)@).contains(x) <==> views(old(recipients)@).contains(x),
            r@ == recipients_path_of(*self),
    {
        sort_dedup(recipients);
        self.recipients_path()
    }
}

} // verus!
