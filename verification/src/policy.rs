//! The per-extension retention policy: which syntax-node kinds become
//! indexed entities, and how extension aliases collapse to one policy key.

use vstd::prelude::*;

verus! {

/// One retention-policy entry: a file extension and the syntax-node kinds
/// retained for files of that extension. The sentinel kind "ALL" retains
/// every kind.
pub struct PolicyEntry {
    pub extension: String,
    pub kinds: Vec<String>,
}

/// The per-extension retention policy: which syntax-node kinds become
/// indexed entities. Loaded once at startup and immutable for the run.
pub struct RetentionPolicy {
    pub entries: Vec<PolicyEntry>,
}

/// Extension aliases collapse to one canonical policy key: C++ variants to
/// "cpp", the C header extension to "c", and the JSX variant to "js".
pub open spec fn spec_normalize_extension(ext: Seq<char>) -> Seq<char> {
    if ext == "cc"@ || ext == "cxx"@ {
        "cpp"@
    } else if ext == "h"@ {
        "c"@
    } else if ext == "js"@ || ext == "jsx"@ {
        "js"@
    } else {
        ext
    }
}

/// The kinds the policy lists for a (normalized) extension, or `None` when
/// the extension has no entry. The first entry with a matching extension
/// wins.
pub open spec fn spec_policy_kinds(entries: Seq<PolicyEntry>, ext: Seq<char>) -> Option<Seq<Seq<char>>>
    decreases entries.len(),
{
    if entries.len() == 0 {
        None
    } else if entries[0].extension@ == ext {
        Some(entries[0].kinds.deep_view())
    } else {
        spec_policy_kinds(entries.drop_first(), ext)
    }
}

/// A kind list retains a node kind when it names the kind or holds the
/// sentinel "ALL".
pub open spec fn spec_kinds_retain(kinds: Seq<Seq<char>>, kind: Seq<char>) -> bool {
    kinds.contains(kind) || kinds.contains("ALL"@)
}

/// Whether the policy retains a node of kind `kind` in a file whose
/// extension normalizes to `ext`. An extension absent from the policy
/// retains nothing.
pub open spec fn spec_retains(entries: Seq<PolicyEntry>, ext: Seq<char>, kind: Seq<char>) -> bool {
    match spec_policy_kinds(entries, spec_normalize_extension(ext)) {
        Some(kinds) => spec_kinds_retain(kinds, kind),
        None => false,
    }
}

impl RetentionPolicy {
    /// Decide whether a syntax node of kind `kind` in a file with (raw)
    /// extension `ext` is materialized as an entity.
    pub fn retains(&self, ext: &String, kind: &String) -> (r: bool)
        ensures
            r == spec_retains(self.entries@, ext@, kind@),
    {
        let ext_norm = normalize_extension(ext);
        assert(self.entries@.skip(0) =~= self.entries@);
        let mut i: usize = 0;
        while i < self.entries.len()
            invariant
                0 <= i <= self.entries.len(),
                ext_norm@ == spec_normalize_extension(ext@),
                spec_policy_kinds(self.entries@, ext_norm@)
                    == spec_policy_kinds(self.entries@.skip(i as int), ext_norm@),
            decreases self.entries.len() - i,
        {
            if self.entries[i].extension == ext_norm {
                assert(self.entries@.skip(i as int)[0] == self.entries@[i as int]);
                assert(spec_policy_kinds(self.entries@.skip(i as int), ext_norm@)
                    == Some(self.entries@[i as int].kinds.deep_view()));
                return kinds_retain(&self.entries[i].kinds, kind);
            }
            assert(self.entries@.skip(i as int).drop_first() =~= self.entries@.skip(i + 1));
            i = i + 1;
        }
        assert(self.entries@.skip(i as int).len() == 0);
        false
    }
}

/// Scan a kind list for `kind` or the sentinel "ALL".
fn kinds_retain(kinds: &Vec<String>, kind: &String) -> (r: bool)
    ensures
        r == spec_kinds_retain(kinds.deep_view(), kind@),
{
    let sentinel = String::from_str("ALL");
    let mut i: usize = 0;
    while i < kinds.len()
        invariant
            0 <= i <= kinds.len(),
            sentinel@ == "ALL"@,
            forall|j: int| 0 <= j < i ==> kinds.deep_view()[j] != kind@,
            forall|j: int| 0 <= j < i ==> kinds.deep_view()[j] != "ALL"@,
        decreases kinds.len() - i,
    {
        if kinds[i] == *kind || kinds[i] == sentinel {
            assert(kinds.deep_view()[i as int] == kinds@[i as int]@);
            return true;
        }
        assert(kinds.deep_view()[i as int] == kinds@[i as int]@);
        i = i + 1;
    }
    assert(forall|j: int| 0 <= j < kinds.deep_view().len() ==> kinds.deep_view()[j] != kind@);
    assert(forall|j: int| 0 <= j < kinds.deep_view().len() ==> kinds.deep_view()[j] != "ALL"@);
    false
}

/// Collapse extension aliases to the canonical policy key.
pub fn normalize_extension(ext: &String) -> (r: String)
    ensures
        r@ == spec_normalize_extension(ext@),
{
    if *ext == String::from_str("cc") || *ext == String::from_str("cxx") {
        String::from_str("cpp")
    } else if *ext == String::from_str("h") {
        String::from_str("c")
    } else if *ext == String::from_str("js") || *ext == String::from_str("jsx") {
        String::from_str("js")
    } else {
        ext.clone()
    }
}

} // verus!
