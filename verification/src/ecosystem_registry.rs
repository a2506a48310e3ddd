//! Routing of manifest and lock files to the ecosystems that handle them.

use crate::index::KeyIndex;
use crate::osv::contains_string;
use crate::text::{
    chars_of, find_char, is_at, is_text_le, law_split_at_separator, law_split_counts_separators,
    law_split_without_separator, lemma_text_le_order, lowercase_text, occurs_at,
    rfind_char, split, split_on, starts_with, string_texts, text_le, texts,
};
use vstd::prelude::*;

verus! {

/// What the registry knows of an ecosystem: its names and the files it claims.
pub struct EcosystemDescriptor {
    /// The stable identifier, such as `cargo`.
    pub id: String,
    /// The name shown to people.
    pub display_name: String,
    /// Manifest names that are matched exactly.
    pub manifest_filenames: Vec<String>,
    /// Lower-case extensions, with their dot, of manifests with free basenames.
    pub manifest_extensions: Vec<String>,
    /// Basename patterns with one `*`.
    pub manifest_patterns: Vec<String>,
    /// Pairs of a directory path and a file suffix that identify a manifest by where it lies.
    pub manifest_directory_patterns: Vec<(String, String)>,
    /// The lock files of the ecosystem.
    pub lockfile_filenames: Vec<String>,
}

impl EcosystemDescriptor {
    /// An ecosystem that claims no file yet.
    pub fn new(id: &str, display_name: &str) -> (r: Self)
        ensures
            r.id@ == id@,
            r.display_name@ == display_name@,
            r.manifest_filenames@.len() == 0,
            r.manifest_extensions@.len() == 0,
            r.manifest_patterns@.len() == 0,
            r.manifest_directory_patterns@.len() == 0,
            r.lockfile_filenames@.len() == 0,
    {
        EcosystemDescriptor {
            id: id.to_owned(),
            display_name: display_name.to_owned(),
            manifest_filenames: Vec::new(),
            manifest_extensions: Vec::new(),
            manifest_patterns: Vec::new(),
            manifest_directory_patterns: Vec::new(),
            lockfile_filenames: Vec::new(),
        }
    }

    /// The stable identifier.
    pub fn id(&self) -> (r: &str)
        ensures
            r@ == self.id@,
    {
        self.id.as_str()
    }

    /// The name shown to people.
    pub fn display_name(&self) -> (r: &str)
        ensures
            r@ == self.display_name@,
    {
        self.display_name.as_str()
    }
}

// ---------------------------------------------------------------------------
// Model
// ---------------------------------------------------------------------------

/// The last registration of which `claim` holds.
pub open spec fn latest(
    regs: Seq<EcosystemDescriptor>,
    claim: spec_fn(EcosystemDescriptor) -> bool,
) -> Option<int>
    decreases regs.len(),
{
    if regs.len() == 0 {
        None
    } else if claim(regs.last()) {
        Some(regs.len() - 1)
    } else {
        latest(regs.drop_last(), claim)
    }
}

/// Whether an ecosystem has the identifier `id`.
pub open spec fn has_id(id: Seq<char>) -> spec_fn(EcosystemDescriptor) -> bool {
    |d: EcosystemDescriptor| d.id@ == id
}

/// Whether an ecosystem claims the manifest name `name`.
pub open spec fn claims_filename(name: Seq<char>) -> spec_fn(EcosystemDescriptor) -> bool {
    |d: EcosystemDescriptor| string_texts(d.manifest_filenames@).contains(name)
}

/// Whether an ecosystem claims the extension `extension`.
pub open spec fn claims_extension(extension: Seq<char>) -> spec_fn(EcosystemDescriptor) -> bool {
    |d: EcosystemDescriptor| string_texts(d.manifest_extensions@).contains(extension)
}

/// Whether an ecosystem claims the pattern `pattern`.
pub open spec fn claims_pattern(pattern: Seq<char>) -> spec_fn(EcosystemDescriptor) -> bool {
    |d: EcosystemDescriptor| string_texts(d.manifest_patterns@).contains(pattern)
}

/// The ecosystem registered under `id`: the last registration counts.
pub open spec fn registered(regs: Seq<EcosystemDescriptor>, id: Seq<char>) -> Option<int> {
    latest(regs, has_id(id))
}

/// Whether the registration at `i` is the one that counts for its identifier.
pub open spec fn current(regs: Seq<EcosystemDescriptor>, i: int) -> bool {
    registered(regs, regs[i].id@) == Some(i)
}

/// Whether `filename` begins and ends as the pattern `prefix*suffix` demands, the two parts
/// side by side. A text without `*` is no pattern and matches nothing.
pub open spec fn pattern_matches(pattern: Seq<char>, filename: Seq<char>) -> bool {
    exists|star: int| #[trigger] pattern_splits(pattern, star) && {
        let prefix = pattern.take(star);
        let suffix = pattern.skip(star + 1);
        &&& prefix.len() + suffix.len() <= filename.len()
        &&& prefix.is_prefix_of(filename)
        &&& suffix.is_suffix_of(filename)
    }
}

/// Whether the first `*` of `pattern` stands at `star`.
pub open spec fn pattern_splits(pattern: Seq<char>, star: int) -> bool {
    &&& 0 <= star < pattern.len()
    &&& pattern[star] == '*'
    &&& forall|j: int| 0 <= j < star ==> pattern[j] != '*'
}

/// The length of a pattern in bytes, by which specificity goes.
pub open spec fn specificity(pattern: Seq<char>) -> nat {
    vstd::utf8::encode_utf8(pattern).len()
}

/// Whether `p` is to be preferred to `q`: it is more specific or, where both are equally
/// specific, not behind `q` in the order of strings.
pub open spec fn preferred(p: Seq<char>, q: Seq<char>) -> bool {
    ||| specificity(p) > specificity(q)
    ||| specificity(p) == specificity(q) && text_le(p, q)
}

/// Whether `pattern` is registered and matches `filename`.
pub open spec fn pattern_applies(
    regs: Seq<EcosystemDescriptor>,
    filename: Seq<char>,
    pattern: Seq<char>,
) -> bool {
    latest(regs, claims_pattern(pattern)) is Some && pattern_matches(pattern, filename)
}

/// Whether `pattern` applies and is preferred to every other that does.
pub open spec fn best_pattern(
    regs: Seq<EcosystemDescriptor>,
    filename: Seq<char>,
    pattern: Seq<char>,
) -> bool {
    &&& pattern_applies(regs, filename, pattern)
    &&& forall|other: Seq<char>| #[trigger]
        pattern_applies(regs, filename, other) ==> preferred(pattern, other)
}

/// The registration whose pattern claims `filename`: the owner of the best pattern.
pub open spec fn pattern_owner(regs: Seq<EcosystemDescriptor>, filename: Seq<char>) -> Option<int> {
    if exists|p: Seq<char>| #[trigger] best_pattern(regs, filename, p) {
        latest(
            regs,
            claims_pattern(choose|p: Seq<char>| #[trigger] best_pattern(regs, filename, p)),
        )
    } else {
        None
    }
}

/// What follows the last dot of `filename`.
pub open spec fn extension_of(filename: Seq<char>) -> Option<Seq<char>> {
    if filename.contains('.') {
        Some(split_on(filename, '.').last())
    } else {
        None
    }
}

/// The registration that claims `filename` by name, else by pattern, else by extension in any
/// letter case.
pub open spec fn filename_owner(regs: Seq<EcosystemDescriptor>, filename: Seq<char>) -> Option<int> {
    match latest(regs, claims_filename(filename)) {
        Some(i) => Some(i),
        None => match pattern_owner(regs, filename) {
            Some(i) => Some(i),
            None => match extension_of(filename) {
                Some(extension) => latest(
                    regs,
                    claims_extension(seq!['.'] + lowercase_text(extension)),
                ),
                None => None,
            },
        },
    }
}

/// Whether the path lies in the directory and ends in the suffix: the directory's segments are
/// the last segments of the file's directory.
pub open spec fn lies_in(path: Seq<char>, directory: Seq<char>, suffix: Seq<char>) -> bool {
    let segments = split_on(path, '/');
    &&& split_on(directory, '/').is_suffix_of(segments.drop_last())
    &&& suffix.is_suffix_of(segments.last())
}

/// Whether an ecosystem claims the path by where the file lies.
pub open spec fn claims_path(d: EcosystemDescriptor, path: Seq<char>) -> bool {
    exists|i: int|
        0 <= i < d.manifest_directory_patterns@.len() && lies_in(
            path,
            (#[trigger] d.manifest_directory_patterns@[i]).0@,
            d.manifest_directory_patterns@[i].1@,
        )
}

/// The first registration that claims the path by where the file lies.
pub open spec fn path_owner(regs: Seq<EcosystemDescriptor>, path: Seq<char>, i: int) -> bool {
    &&& 0 <= i < regs.len()
    &&& claims_path(regs[i], path)
    &&& forall|j: int| 0 <= j < i ==> !claims_path(#[trigger] regs[j], path)
}

/// Whether `r` is the ecosystem that counts for the identifier of registration `owner`.
pub open spec fn resolves(
    r: Option<&EcosystemDescriptor>,
    regs: Seq<EcosystemDescriptor>,
    owner: Option<int>,
) -> bool {
    match owner {
        Some(i) => match registered(regs, regs[i].id@) {
            Some(k) => r == Some(&regs[k]),
            None => r is None,
        },
        None => r is None,
    }
}

/// The glob patterns of the lock files of one ecosystem.
pub open spec fn lockfile_globs(d: EcosystemDescriptor) -> Seq<Seq<char>> {
    d.lockfile_filenames@.map_values(|f: String| "**/"@ + f@)
}

/// The identifiers that count, in order of registration, up to registration `n`.
pub open spec fn current_ids(regs: Seq<EcosystemDescriptor>, n: nat) -> Seq<Seq<char>>
    decreases n,
{
    if n == 0 {
        Seq::empty()
    } else {
        let before = current_ids(regs, (n - 1) as nat);
        if current(regs, n - 1) {
            before.push(regs[n - 1].id@)
        } else {
            before
        }
    }
}

/// The lock-file patterns of the ecosystems that count, in order of registration.
pub open spec fn current_globs(regs: Seq<EcosystemDescriptor>, n: nat) -> Seq<Seq<char>>
    decreases n,
{
    if n == 0 {
        Seq::empty()
    } else {
        let before = current_globs(regs, (n - 1) as nat);
        if current(regs, n - 1) {
            before + lockfile_globs(regs[n - 1])
        } else {
            before
        }
    }
}

// ---------------------------------------------------------------------------
// Registry
// ---------------------------------------------------------------------------

/// Registry for all available ecosystems.
///
/// Looks ecosystems up by identifier, by manifest name, by path and by lock file. Where two
/// registrations claim the same thing, the later one counts.
pub struct EcosystemRegistry {
    ecosystems: Vec<EcosystemDescriptor>,
    id_map: KeyIndex,
    filename_map: KeyIndex,
    extension_map: KeyIndex,
}

spec fn position(i: Option<int>) -> Option<usize> {
    match i {
        Some(i) => Some(i as usize),
        None => None,
    }
}

proof fn lemma_latest(
    regs: Seq<EcosystemDescriptor>,
    claim: spec_fn(EcosystemDescriptor) -> bool,
)
    ensures
        match latest(regs, claim) {
            Some(i) => 0 <= i < regs.len() && claim(regs[i]) && forall|j: int|
                i < j < regs.len() ==> !claim(#[trigger] regs[j]),
            None => forall|j: int| 0 <= j < regs.len() ==> !claim(#[trigger] regs[j]),
        },
    decreases regs.len(),
{
    if regs.len() > 0 && !claim(regs.last()) {
        lemma_latest(regs.drop_last(), claim);
        match latest(regs.drop_last(), claim) {
            Some(i) => {
                assert(regs.drop_last()[i] == regs[i]);
                assert forall|j: int| i < j < regs.len() implies !claim(#[trigger] regs[j]) by {
                    if j < regs.len() - 1 {
                        assert(!claim(regs.drop_last()[j]));
                    }
                }
            },
            None => {
                assert forall|j: int| 0 <= j < regs.len() implies !claim(#[trigger] regs[j]) by {
                    if j < regs.len() - 1 {
                        assert(!claim(regs.drop_last()[j]));
                    }
                }
            },
        }
    }
}

fn one_part_key(name: &str) -> (r: Vec<String>)
    ensures
        string_texts(r@) == seq![name@],
{
    let mut key: Vec<String> = Vec::new();
    key.push(name.to_owned());
    proof {
        assert(string_texts(key@) =~= seq![name@]);
    }
    key
}

/// Points every name of `names` at `at`.
fn claim_names(index: &mut KeyIndex, names: &Vec<String>, at: usize)
    ensures
        forall|name: Seq<char>| #[trigger]
            final(index)@.get(seq![name]) == (if string_texts(names@).contains(name) {
                Some(at)
            } else {
                old(index)@.get(seq![name])
            }),
{
    let ghost before = index@;
    let ghost all = string_texts(names@);
    let mut i: usize = 0;
    proof {
        assert(all.take(0) =~= Seq::<Seq<char>>::empty());
    }
    while i < names.len()
        invariant
            i <= names@.len(),
            all == string_texts(names@),
            forall|name: Seq<char>| #[trigger]
                index@.get(seq![name]) == (if all.take(i as int).contains(name) {
                    Some(at)
                } else {
                    before.get(seq![name])
                }),
        decreases names@.len() - i,
    {
        let ghost so_far = index@;
        index.insert(one_part_key(names[i].as_str()), at);
        proof {
            let added = names@[i as int]@;
            assert(all.take(i + 1) =~= all.take(i as int).push(added));
            assert forall|name: Seq<char>| #[trigger] index@.get(seq![name]) == (if all.take(
                i + 1,
            ).contains(name) {
                Some(at)
            } else {
                before.get(seq![name])
            }) by {
                assert(so_far.get(seq![name]) == (if all.take(i as int).contains(name) {
                    Some(at)
                } else {
                    before.get(seq![name])
                }));
                if name == added {
                    assert(all.take(i + 1)[i as int] == name);
                } else {
                    assert(seq![name] != seq![added]) by {
                        assert(seq![name][0] == name);
                    }
                    if all.take(i as int).contains(name) {
                        let less = all.take(i as int);
                        let k = choose|k: int| 0 <= k < less.len() && less[k] == name;
                        assert(all.take(i + 1)[k] == name);
                    }
                    if all.take(i + 1).contains(name) {
                        let more = all.take(i + 1);
                        let k = choose|k: int| 0 <= k < more.len() && more[k] == name;
                        assert(k < i);
                        assert(all.take(i as int)[k] == name);
                    }
                }
            }
        }
        i += 1;
    }
    proof {
        assert(all.take(i as int) =~= all);
    }
}

impl EcosystemRegistry {
    /// The registrations made so far, in order.
    pub closed spec fn registrations(&self) -> Seq<EcosystemDescriptor> {
        self.ecosystems@
    }

    /// The lookup maps agree with the registrations.
    pub closed spec fn wf(&self) -> bool {
        &&& forall|id: Seq<char>| #[trigger]
            self.id_map@.get(seq![id]) == position(latest(self.ecosystems@, has_id(id)))
        &&& forall|name: Seq<char>| #[trigger]
            self.filename_map@.get(seq![name]) == position(
                latest(self.ecosystems@, claims_filename(name)),
            )
        &&& forall|extension: Seq<char>| #[trigger]
            self.extension_map@.get(seq![extension]) == position(
                latest(self.ecosystems@, claims_extension(extension)),
            )
    }

    /// An empty registry.
    pub fn new() -> (r: Self)
        ensures
            r.wf(),
            r.registrations() == Seq::<EcosystemDescriptor>::empty(),
    {
        EcosystemRegistry {
            ecosystems: Vec::new(),
            id_map: KeyIndex::new(),
            filename_map: KeyIndex::new(),
            extension_map: KeyIndex::new(),
        }
    }

    /// Registers an ecosystem with everything it claims.
    pub fn register(&mut self, ecosystem: EcosystemDescriptor)
        requires
            old(self).wf(),
        ensures
            final(self).wf(),
            final(self).registrations() == old(self).registrations().push(ecosystem),
    {
        let at: usize = self.ecosystems.len();
        let ghost before = self.ecosystems@;
        let ghost ids = self.id_map@;
        claim_names(&mut self.filename_map, &ecosystem.manifest_filenames, at);
        claim_names(&mut self.extension_map, &ecosystem.manifest_extensions, at);
        self.id_map.insert(one_part_key(ecosystem.id.as_str()), at);
        self.ecosystems.push(ecosystem);
        proof {
            let regs = self.ecosystems@;
            assert(regs.drop_last() =~= before);
            assert(regs.last() == ecosystem);
            assert forall|id: Seq<char>| #[trigger] self.id_map@.get(seq![id]) == position(
                latest(regs, has_id(id)),
            ) by {
                assert(ids.get(seq![id]) == position(latest(before, has_id(id))));
                if id != ecosystem.id@ {
                    assert(seq![id][0] == id);
                    assert(seq![id] != seq![ecosystem.id@]);
                }
            }
            assert forall|name: Seq<char>| #[trigger] self.filename_map@.get(seq![name])
                == position(latest(regs, claims_filename(name))) by {
                assert(old(self).filename_map@.get(seq![name]) == position(
                    latest(before, claims_filename(name)),
                ));
            }
            assert forall|extension: Seq<char>| #[trigger] self.extension_map@.get(
                seq![extension],
            ) == position(latest(regs, claims_extension(extension))) by {
                assert(old(self).extension_map@.get(seq![extension]) == position(
                    latest(before, claims_extension(extension)),
                ));
            }
        }
    }

    /// The ecosystem registered under `id`.
    pub fn get(&self, id: &str) -> (r: Option<&EcosystemDescriptor>)
        requires
            self.wf(),
        ensures
            match registered(self.registrations(), id@) {
                Some(i) => r == Some(&self.registrations()[i]),
                None => r is None,
            },
    {
        let found = self.id_map.get(&one_part_key(id));
        proof {
            lemma_latest(self.ecosystems@, has_id(id@));
            assert(self.id_map@.get(seq![id@]) == position(
                latest(self.ecosystems@, has_id(id@)),
            ));
            assert(self.ecosystems.len() == self.ecosystems@.len());
        }
        match found {
            Some(i) => Some(&self.ecosystems[i]),
            None => None,
        }
    }

    /// The ecosystem that handles a manifest of the given name.
    ///
    /// An exact, case-sensitive match of the name comes first. Next come the basename patterns,
    /// also case-sensitive, of which the most specific one wins (the longest, and among equally
    /// long ones the first in the order of strings). Last comes the extension, matched without
    /// regard to letter case.
    pub fn get_for_filename(&self, filename: &str) -> (r: Option<&EcosystemDescriptor>)
        requires
            self.wf(),
        ensures
            resolves(r, self.registrations(), filename_owner(self.registrations(), filename@)),
    {
        let ghost regs = self.ecosystems@;
        let by_name = self.filename_map.get(&one_part_key(filename));
        proof {
            lemma_latest(regs, claims_filename(filename@));
            assert(self.filename_map@.get(seq![filename@]) == position(
                latest(regs, claims_filename(filename@)),
            ));
            assert(self.ecosystems.len() == regs.len());
        }
        if let Some(i) = by_name {
            return self.get(self.ecosystems[i].id.as_str());
        }
        if let Some(i) = self.match_pattern(filename) {
            return self.get(self.ecosystems[i].id.as_str());
        }
        let chars = chars_of(filename);
        match rfind_char(chars.as_slice(), '.') {
            None => None,
            Some(dot) => {
                let extension = filename.substring_char(dot + 1, chars.len());
                proof {
                    lemma_last_piece(filename@, '.', dot as int);
                    assert(filename@[dot as int] == '.');
                }
                let lowercased = extension.to_lowercase();
                self.get_for_extension(lowercased.as_str())
            },
        }
    }

    /// The ecosystem that handles manifests with the given lower-case extension, written
    /// without its dot.
    pub fn get_for_extension(&self, lowercased: &str) -> (r: Option<&EcosystemDescriptor>)
        requires
            self.wf(),
        ensures
            resolves(
                r,
                self.registrations(),
                latest(self.registrations(), claims_extension(seq!['.'] + lowercased@)),
            ),
    {
        let mut extension = ".".to_owned();
        extension.append(lowercased);
        let found = self.extension_map.get(&one_part_key(extension.as_str()));
        proof {
            reveal_strlit(".");
            assert("."@ =~= seq!['.']);
            let wanted = seq!['.'] + lowercased@;
            lemma_latest(self.ecosystems@, claims_extension(wanted));
            assert(self.extension_map@.get(seq![wanted]) == position(
                latest(self.ecosystems@, claims_extension(wanted)),
            ));
            assert(self.ecosystems.len() == self.ecosystems@.len());
        }
        match found {
            Some(i) => self.get(self.ecosystems[i].id.as_str()),
            None => None,
        }
    }

    /// The registration whose pattern claims `filename`.
    fn match_pattern(&self, filename: &str) -> (r: Option<usize>)
        requires
            self.wf(),
        ensures
            match r {
                Some(i) => i < self.registrations().len() && pattern_owner(
                    self.registrations(),
                    filename@,
                ) == Some(i as int),
                None => pattern_owner(self.registrations(), filename@) is None,
            },
    {
        let ghost regs = self.ecosystems@;
        let chars = chars_of(filename);
        let mut best: Option<(usize, usize)> = None;
        let mut i: usize = 0;
        while i < self.ecosystems.len()
            invariant
                i <= self.ecosystems@.len(),
                regs == self.ecosystems@,
                chars@ == filename@,
                best_so_far(regs, filename@, i as int, 0, best),
            decreases self.ecosystems@.len() - i,
        {
            let patterns = &self.ecosystems[i].manifest_patterns;
            let mut k: usize = 0;
            while k < patterns.len()
                invariant
                    i < self.ecosystems@.len(),
                    regs == self.ecosystems@,
                    patterns == regs[i as int].manifest_patterns,
                    k <= patterns@.len(),
                    chars@ == filename@,
                    best_so_far(regs, filename@, i as int, k as int, best),
                decreases patterns@.len() - k,
            {
                let pattern = chars_of(patterns[k].as_str());
                let ghost seen = best;
                if is_pattern_match(pattern.as_slice(), chars.as_slice()) {
                    let takes = match best {
                        None => true,
                        Some((a, b)) => is_preferred(
                            patterns[k].as_str(),
                            self.ecosystems[a].manifest_patterns[b].as_str(),
                        ),
                    };
                    if takes {
                        best = Some((i, k));
                    }
                }
                proof {
                    lemma_best_step(regs, filename@, i as int, k as int, seen, best);
                }
                k += 1;
            }
            proof {
                lemma_best_next(regs, filename@, i as int, best);
            }
            i += 1;
        }
        proof {
            lemma_best_done(regs, filename@, best);
        }
        match best {
            Some((a, _)) => Some(a),
            None => None,
        }
    }

    /// The ecosystem that handles the document at `path`, the path of its URI.
    ///
    /// The file name is routed as by [`Self::get_for_filename`]. Where that finds nothing, the
    /// directory patterns are consulted: the first registration that claims the directory's
    /// last segments and the file's suffix wins.
    pub fn get_for_uri(&self, path: &str) -> (r: Option<&EcosystemDescriptor>)
        requires
            self.wf(),
        ensures
            ({
                let regs = self.registrations();
                let by_name = filename_owner(regs, split_on(path@, '/').last());
                if by_name is Some {
                    resolves(r, regs, by_name)
                } else if exists|i: int| #[trigger] path_owner(regs, path@, i) {
                    exists|i: int| #[trigger] path_owner(regs, path@, i) && resolves(r, regs, Some(i))
                } else {
                    r is None
                }
            }),
    {
        let ghost regs = self.ecosystems@;
        let chars = chars_of(path);
        let start: usize = match rfind_char(chars.as_slice(), '/') {
            Some(slash) => {
                proof {
                    lemma_last_piece(path@, '/', slash as int);
                }
                slash + 1
            },
            None => {
                proof {
                    lemma_only_piece(path@, '/');
                    assert(path@.subrange(0, path@.len() as int) =~= path@);
                }
                0
            },
        };
        let filename = path.substring_char(start, chars.len());
        proof {
            assert(filename@ == split_on(path@, '/').last());
        }
        let by_name = self.get_for_filename(filename);
        proof {
            lemma_owner_registered(regs, filename@);
        }
        if by_name.is_some() {
            return by_name;
        }
        let mut i: usize = 0;
        while i < self.ecosystems.len()
            invariant
                i <= self.ecosystems@.len(),
                self.wf(),
                regs == self.ecosystems@,
                chars@ == path@,
                filename_owner(regs, split_on(path@, '/').last()) is None,
                forall|j: int| 0 <= j < i ==> !claims_path(#[trigger] regs[j], path@),
            decreases self.ecosystems@.len() - i,
        {
            if is_path_claimed(&self.ecosystems[i], chars.as_slice()) {
                proof {
                    assert(path_owner(regs, path@, i as int));
                }
                return self.get(self.ecosystems[i].id.as_str());
            }
            i += 1;
        }
        None
    }

    /// The identifiers of the registered ecosystems.
    pub fn ecosystem_ids(&self) -> (r: Vec<&str>)
        requires
            self.wf(),
        ensures
            crate::text::str_texts(r@) == current_ids(
                self.registrations(),
                self.registrations().len(),
            ),
    {
        let mut ids: Vec<&str> = Vec::new();
        let mut i: usize = 0;
        proof {
            assert(crate::text::str_texts(ids@) =~= Seq::<Seq<char>>::empty());
        }
        while i < self.ecosystems.len()
            invariant
                i <= self.ecosystems@.len(),
                self.wf(),
                crate::text::str_texts(ids@) == current_ids(self.ecosystems@, i as nat),
            decreases self.ecosystems@.len() - i,
        {
            if self.is_current(i) {
                let ghost before = ids@;
                ids.push(self.ecosystems[i].id.as_str());
                proof {
                    assert(crate::text::str_texts(ids@) =~= crate::text::str_texts(before).push(
                        self.ecosystems@[i as int].id@,
                    ));
                }
            }
            i += 1;
        }
        ids
    }

    fn is_current(&self, i: usize) -> (r: bool)
        requires
            self.wf(),
            i < self.ecosystems@.len(),
        ensures
            r == current(self.registrations(), i as int),
    {
        let id = self.ecosystems[i].id.as_str();
        let found = self.id_map.get(&one_part_key(id));
        proof {
            lemma_latest(self.ecosystems@, has_id(id@));
            assert(self.id_map@.get(seq![id@]) == position(
                latest(self.ecosystems@, has_id(id@)),
            ));
            assert(self.ecosystems.len() == self.ecosystems@.len());
        }
        match found {
            Some(k) => k == i,
            None => false,
        }
    }

    /// The ecosystem that uses the lock file of the given name; the first registered one where
    /// several do.
    pub fn get_for_lockfile(&self, filename: &str) -> (r: Option<&EcosystemDescriptor>)
        requires
            self.wf(),
        ensures
            match r {
                Some(d) => exists|i: int|
                    #![trigger self.registrations()[i]]
                    0 <= i < self.registrations().len() && d == self.registrations()[i] && current(
                        self.registrations(),
                        i,
                    ) && string_texts(d.lockfile_filenames@).contains(filename@) && forall|j: int|
                        0 <= j < i && current(self.registrations(), j) ==> !string_texts(
                            (#[trigger] self.registrations()[j]).lockfile_filenames@,
                        ).contains(filename@),
                None => forall|j: int|
                    0 <= j < self.registrations().len() && current(self.registrations(), j)
                        ==> !string_texts(
                        (#[trigger] self.registrations()[j]).lockfile_filenames@,
                    ).contains(filename@),
            },
    {
        let mut i: usize = 0;
        while i < self.ecosystems.len()
            invariant
                i <= self.ecosystems@.len(),
                self.wf(),
                forall|j: int|
                    0 <= j < i && current(self.ecosystems@, j) ==> !string_texts(
                        (#[trigger] self.ecosystems@[j]).lockfile_filenames@,
                    ).contains(filename@),
            decreases self.ecosystems@.len() - i,
        {
            if self.is_current(i) && contains_string(
                self.ecosystems[i].lockfile_filenames.as_slice(),
                filename,
            ) {
                proof {
                    assert(self.registrations()[i as int] == self.ecosystems@[i as int]);
                }
                return Some(&self.ecosystems[i]);
            }
            i += 1;
        }
        None
    }

    /// Glob patterns (`**/Cargo.lock`) for the lock files of all registered ecosystems.
    pub fn all_lockfile_patterns(&self) -> (r: Vec<String>)
        requires
            self.wf(),
        ensures
            string_texts(r@) == current_globs(self.registrations(), self.registrations().len()),
    {
        let mut globs: Vec<String> = Vec::new();
        let mut i: usize = 0;
        proof {
            assert(string_texts(globs@) =~= Seq::<Seq<char>>::empty());
        }
        while i < self.ecosystems.len()
            invariant
                i <= self.ecosystems@.len(),
                self.wf(),
                string_texts(globs@) == current_globs(self.ecosystems@, i as nat),
            decreases self.ecosystems@.len() - i,
        {
            if self.is_current(i) {
                let files = &self.ecosystems[i].lockfile_filenames;
                let ghost wanted = lockfile_globs(self.ecosystems@[i as int]);
                let ghost before = string_texts(globs@);
                let mut k: usize = 0;
                proof {
                    assert(before + wanted.take(0) =~= before);
                }
                while k < files.len()
                    invariant
                        k <= files@.len(),
                        i < self.ecosystems@.len(),
                        files == self.ecosystems@[i as int].lockfile_filenames,
                        wanted == lockfile_globs(self.ecosystems@[i as int]),
                        string_texts(globs@) == before + wanted.take(k as int),
                    decreases files@.len() - k,
                {
                    let mut glob = "**/".to_owned();
                    glob.append(files[k].as_str());
                    let ghost so_far = globs@;
                    globs.push(glob);
                    proof {
                        assert(string_texts(globs@) =~= string_texts(so_far).push(glob@));
                        assert(before + wanted.take(k + 1) =~= (before + wanted.take(
                            k as int,
                        )).push(wanted[k as int]));
                    }
                    k += 1;
                }
                proof {
                    assert(wanted.take(k as int) =~= wanted);
                }
            }
            i += 1;
        }
        globs
    }
}

impl Default for EcosystemRegistry {
    fn default() -> (r: Self)
        ensures
            r.wf(),
            r.registrations() == Seq::<EcosystemDescriptor>::empty(),
    {
        EcosystemRegistry::new()
    }
}

// ---------------------------------------------------------------------------
// Pattern selection
// ---------------------------------------------------------------------------

fn is_pattern_match(pattern: &[char], filename: &[char]) -> (r: bool)
    ensures
        r == pattern_matches(pattern@, filename@),
{
    match find_char(pattern, '*') {
        None => {
            proof {
                if pattern_matches(pattern@, filename@) {
                    let star = choose|star: int| #[trigger] pattern_splits(pattern@, star);
                    assert(pattern@.contains(pattern@[star]));
                }
            }
            false
        },
        Some(star) => {
            let prefix = &pattern[0..star];
            let suffix = &pattern[star + 1..pattern.len()];
            proof {
                assert(prefix@ =~= pattern@.take(star as int));
                assert(suffix@ =~= pattern@.skip(star + 1));
                assert(pattern_splits(pattern@, star as int));
                assert forall|other: int| #[trigger] pattern_splits(pattern@, other) implies other
                    == star by {
                    if other < star {
                        assert(pattern@[other] != '*');
                    }
                    if star < other {
                        assert(pattern@[star as int] != '*');
                    }
                }
            }
            if filename.len() < prefix.len() || filename.len() - prefix.len() < suffix.len() {
                return false;
            }
            let begins = starts_with(filename, prefix);
            let ends = is_at(filename, suffix, filename.len() - suffix.len());
            proof {
                let from = filename@.len() - suffix@.len();
                assert(filename@.subrange(from, filename@.len() as int) =~= filename@.skip(from));
                assert(suffix@.is_suffix_of(filename@) == occurs_at(filename@, suffix@, from));
            }
            begins && ends
        },
    }
}

fn is_preferred(p: &str, q: &str) -> (r: bool)
    ensures
        r == preferred(p@, q@),
{
    let m: usize = p.as_bytes().len();
    let n: usize = q.as_bytes().len();
    if m > n {
        true
    } else if m < n {
        false
    } else {
        let a = chars_of(p);
        let b = chars_of(q);
        is_text_le(a.as_slice(), b.as_slice())
    }
}

/// The pattern that registration `i` lists at `k`.
spec fn pattern_at(regs: Seq<EcosystemDescriptor>, i: int, k: int) -> Seq<char> {
    regs[i].manifest_patterns@[k]@
}

/// Whether the pattern at `(a, b)` has been looked at once the scan has reached `(i, k)`.
spec fn scanned(regs: Seq<EcosystemDescriptor>, a: int, b: int, i: int, k: int) -> bool {
    &&& 0 <= a < regs.len()
    &&& 0 <= b < regs[a].manifest_patterns@.len()
    &&& a < i || (a == i && b < k)
}

/// `best` is the last of the patterns looked at that match and are preferred to all others.
spec fn best_so_far(
    regs: Seq<EcosystemDescriptor>,
    filename: Seq<char>,
    i: int,
    k: int,
    best: Option<(usize, usize)>,
) -> bool {
    match best {
        None => forall|a: int, b: int| #[trigger]
            scanned(regs, a, b, i, k) ==> !pattern_matches(pattern_at(regs, a, b), filename),
        Some((x, y)) => {
            &&& scanned(regs, x as int, y as int, i, k)
            &&& pattern_matches(pattern_at(regs, x as int, y as int), filename)
            &&& forall|a: int, b: int|
                scanned(regs, a, b, i, k) && pattern_matches(pattern_at(regs, a, b), filename)
                    ==> preferred(
                    pattern_at(regs, x as int, y as int),
                    #[trigger] pattern_at(regs, a, b),
                ) && (pattern_at(regs, a, b) == pattern_at(regs, x as int, y as int) ==> a <= x)
        },
    }
}

proof fn lemma_preferred_order(p: Seq<char>, q: Seq<char>, r: Seq<char>)
    ensures
        preferred(p, q) || preferred(q, p),
        preferred(p, q) && preferred(q, p) ==> p == q,
        preferred(p, q) && preferred(q, r) ==> preferred(p, r),
{
    lemma_text_le_order(p, q, r);
}

proof fn lemma_best_step(
    regs: Seq<EcosystemDescriptor>,
    filename: Seq<char>,
    i: int,
    k: int,
    seen: Option<(usize, usize)>,
    best: Option<(usize, usize)>,
)
    requires
        0 <= i < regs.len(),
        0 <= k < regs[i].manifest_patterns@.len(),
        i <= usize::MAX,
        k <= usize::MAX,
        best_so_far(regs, filename, i, k, seen),
        ({
            let here = pattern_at(regs, i, k);
            let takes = match seen {
                None => true,
                Some((a, b)) => preferred(here, pattern_at(regs, a as int, b as int)),
            };
            if pattern_matches(here, filename) && takes {
                best == Some((i as usize, k as usize))
            } else {
                best == seen
            }
        }),
    ensures
        best_so_far(regs, filename, i, k + 1, best),
{
    let here = pattern_at(regs, i, k);
    assert forall|a: int, b: int| #[trigger] scanned(regs, a, b, i, k + 1) implies scanned(
        regs,
        a,
        b,
        i,
        k,
    ) || (a == i && b == k) by {}
    match seen {
        None => {
            if pattern_matches(here, filename) {
                assert forall|a: int, b: int|
                    scanned(regs, a, b, i, k + 1) && pattern_matches(
                        pattern_at(regs, a, b),
                        filename,
                    ) implies preferred(here, #[trigger] pattern_at(regs, a, b)) && (pattern_at(
                    regs,
                    a,
                    b,
                ) == here ==> a <= i) by {
                    assert(!scanned(regs, a, b, i, k));
                    lemma_preferred_order(here, here, here);
                }
                assert(scanned(regs, i, k, i, k + 1));
            } else {
                assert forall|a: int, b: int| #[trigger]
                    scanned(regs, a, b, i, k + 1) implies !pattern_matches(
                    pattern_at(regs, a, b),
                    filename,
                ) by {
                    if !(a == i && b == k) {
                        assert(scanned(regs, a, b, i, k));
                    }
                }
            }
        },
        Some((x, y)) => {
            let old_best = pattern_at(regs, x as int, y as int);
            if pattern_matches(here, filename) && preferred(here, old_best) {
                assert forall|a: int, b: int|
                    scanned(regs, a, b, i, k + 1) && pattern_matches(
                        pattern_at(regs, a, b),
                        filename,
                    ) implies preferred(here, #[trigger] pattern_at(regs, a, b)) && (pattern_at(
                    regs,
                    a,
                    b,
                ) == here ==> a <= i) by {
                    lemma_preferred_order(here, old_best, pattern_at(regs, a, b));
                    lemma_preferred_order(here, here, here);
                    if !(a == i && b == k) {
                        assert(scanned(regs, a, b, i, k));
                    }
                }
                assert(scanned(regs, i, k, i, k + 1));
            } else {
                assert forall|a: int, b: int|
                    scanned(regs, a, b, i, k + 1) && pattern_matches(
                        pattern_at(regs, a, b),
                        filename,
                    ) implies preferred(old_best, #[trigger] pattern_at(regs, a, b)) && (pattern_at(
                    regs,
                    a,
                    b,
                ) == old_best ==> a <= x) by {
                    lemma_preferred_order(here, old_best, old_best);
                    if !(a == i && b == k) {
                        assert(scanned(regs, a, b, i, k));
                    } else {
                        lemma_preferred_order(here, here, here);
                    }
                }
                assert(scanned(regs, x as int, y as int, i, k + 1));
            }
        },
    }
}

proof fn lemma_best_next(
    regs: Seq<EcosystemDescriptor>,
    filename: Seq<char>,
    i: int,
    best: Option<(usize, usize)>,
)
    requires
        0 <= i < regs.len(),
        best_so_far(regs, filename, i, regs[i].manifest_patterns@.len() as int, best),
    ensures
        best_so_far(regs, filename, i + 1, 0, best),
{
    let n = regs[i].manifest_patterns@.len() as int;
    assert forall|a: int, b: int| #[trigger] scanned(regs, a, b, i + 1, 0) == scanned(
        regs,
        a,
        b,
        i,
        n,
    ) by {}
    match best {
        None => {
            assert forall|a: int, b: int| #[trigger]
                scanned(regs, a, b, i + 1, 0) implies !pattern_matches(
                pattern_at(regs, a, b),
                filename,
            ) by {
                assert(scanned(regs, a, b, i, n));
            }
        },
        Some((x, y)) => {
            assert(scanned(regs, x as int, y as int, i + 1, 0));
            assert forall|a: int, b: int|
                scanned(regs, a, b, i + 1, 0) && pattern_matches(
                    pattern_at(regs, a, b),
                    filename,
                ) implies preferred(
                pattern_at(regs, x as int, y as int),
                #[trigger] pattern_at(regs, a, b),
            ) && (pattern_at(regs, a, b) == pattern_at(regs, x as int, y as int) ==> a <= x) by {
                assert(scanned(regs, a, b, i, n));
            }
        },
    }
}

proof fn lemma_best_done(
    regs: Seq<EcosystemDescriptor>,
    filename: Seq<char>,
    best: Option<(usize, usize)>,
)
    requires
        best_so_far(regs, filename, regs.len() as int, 0, best),
    ensures
        match best {
            Some((a, _)) => a < regs.len() && pattern_owner(regs, filename) == Some(a as int),
            None => pattern_owner(regs, filename) is None,
        },
{
    let n = regs.len() as int;
    assert forall|p: Seq<char>| #[trigger] pattern_applies(regs, filename, p) implies exists|
        a: int,
        b: int,
    | #[trigger]
        scanned(regs, a, b, n, 0) && pattern_at(regs, a, b) == p by {
        lemma_latest(regs, claims_pattern(p));
        let a = latest(regs, claims_pattern(p))->0;
        let t = string_texts(regs[a].manifest_patterns@);
        let b = choose|b: int| 0 <= b < t.len() && t[b] == p;
        assert(scanned(regs, a, b, n, 0));
        assert(pattern_at(regs, a, b) == p);
    }
    match best {
        None => {
            assert forall|p: Seq<char>| !(#[trigger] best_pattern(regs, filename, p)) by {
                if pattern_applies(regs, filename, p) {
                    let (a, b) = choose|a: int, b: int| #[trigger]
                        scanned(regs, a, b, n, 0) && pattern_at(regs, a, b) == p;
                    assert(!pattern_matches(pattern_at(regs, a, b), filename));
                }
            }
        },
        Some((x, y)) => {
            let p = pattern_at(regs, x as int, y as int);
            lemma_latest(regs, claims_pattern(p));
            assert(string_texts(regs[x as int].manifest_patterns@)[y as int] == p);
            assert(claims_pattern(p)(regs[x as int]));
            let owner = latest(regs, claims_pattern(p))->0;
            assert(latest(regs, claims_pattern(p)) is Some);
            assert(pattern_applies(regs, filename, p));
            assert forall|other: Seq<char>| #[trigger]
                pattern_applies(regs, filename, other) implies preferred(p, other) by {
                let (a, b) = choose|a: int, b: int| #[trigger]
                    scanned(regs, a, b, n, 0) && pattern_at(regs, a, b) == other;
                assert(preferred(p, pattern_at(regs, a, b)));
            }
            assert(best_pattern(regs, filename, p));
            let chosen = choose|q: Seq<char>| #[trigger] best_pattern(regs, filename, q);
            assert(pattern_applies(regs, filename, chosen));
            lemma_preferred_order(p, chosen, p);
            assert(chosen == p);
            let t = string_texts(regs[owner].manifest_patterns@);
            let b = choose|b: int| 0 <= b < t.len() && t[b] == p;
            assert(scanned(regs, owner, b, n, 0));
            assert(pattern_at(regs, owner, b) == p);
            assert(owner <= x);
            assert(owner == x);
        },
    }
}

// ---------------------------------------------------------------------------
// Path routing
// ---------------------------------------------------------------------------

proof fn lemma_only_piece(s: Seq<char>, sep: char)
    requires
        !s.contains(sep),
    ensures
        split_on(s, sep) == seq![s],
    decreases s.len(),
{
    if s.len() == 0 {
        assert(s =~= Seq::<char>::empty());
        assert(split_on(s, sep) =~= seq![s]);
    } else {
        let t = s.drop_last();
        assert forall|i: int| 0 <= i < t.len() implies t[i] != sep by {
            assert(s.contains(s[i]));
        }
        assert(s.contains(s.last()));
        lemma_only_piece(t, sep);
        assert(t.push(s.last()) =~= s);
        assert(split_on(s, sep) =~= seq![s]);
    }
}

proof fn lemma_last_piece(s: Seq<char>, sep: char, at: int)
    requires
        0 <= at < s.len(),
        s[at] == sep,
        forall|j: int| at < j < s.len() ==> s[j] != sep,
    ensures
        split_on(s, sep).len() >= 1,
        split_on(s, sep).last() == s.subrange(at + 1, s.len() as int),
    decreases s.len(),
{
    let t = s.drop_last();
    if at == s.len() - 1 {
        assert(split_on(s, sep).last() =~= s.subrange(at + 1, s.len() as int));
    } else {
        assert(t[at] == sep);
        lemma_last_piece(t, sep, at);
        assert(t.subrange(at + 1, t.len() as int).push(s.last()) =~= s.subrange(
            at + 1,
            s.len() as int,
        ));
    }
}

proof fn lemma_owner_registered(regs: Seq<EcosystemDescriptor>, filename: Seq<char>)
    ensures
        filename_owner(regs, filename) matches Some(i) ==> 0 <= i < regs.len() && registered(
            regs,
            regs[i].id@,
        ) is Some,
{
    lemma_latest(regs, claims_filename(filename));
    if exists|p: Seq<char>| #[trigger] best_pattern(regs, filename, p) {
        let p = choose|p: Seq<char>| #[trigger] best_pattern(regs, filename, p);
        lemma_latest(regs, claims_pattern(p));
    }
    if extension_of(filename) is Some {
        lemma_latest(
            regs,
            claims_extension(seq!['.'] + lowercase_text(extension_of(filename)->0)),
        );
    }
    if filename_owner(regs, filename) is Some {
        let i = filename_owner(regs, filename)->0;
        lemma_latest(regs, has_id(regs[i].id@));
        assert(has_id(regs[i].id@)(regs[i]));
    }
}

/// Whether the pieces `tail` are the last of the pieces `whole`.
fn is_tail(tail: &Vec<Vec<char>>, whole: &Vec<Vec<char>>) -> (r: bool)
    ensures
        r == texts(tail@).is_suffix_of(texts(whole@)),
{
    if tail.len() > whole.len() {
        return false;
    }
    let from: usize = whole.len() - tail.len();
    let mut i: usize = 0;
    while i < tail.len()
        invariant
            i <= tail@.len(),
            from + tail.len() == whole.len(),
            forall|k: int| 0 <= k < i ==> (#[trigger] tail@[k])@ == whole@[from + k]@,
        decreases tail@.len() - i,
    {
        if !crate::text::same_chars(tail[i].as_slice(), whole[from + i].as_slice()) {
            proof {
                assert(texts(tail@)[i as int] != texts(whole@)[from + i]);
                assert(texts(whole@).subrange(from as int, whole@.len() as int)[i as int]
                    != texts(tail@)[i as int]);
            }
            return false;
        }
        i += 1;
    }
    proof {
        assert(texts(tail@) =~= texts(whole@).subrange(from as int, whole@.len() as int));
    }
    true
}

fn is_path_claimed(d: &EcosystemDescriptor, path: &[char]) -> (r: bool)
    ensures
        r == claims_path(*d, path@),
{
    let mut directory = split(path, '/');
    let ghost segments = split_on(path@, '/');
    let file = directory.pop().unwrap();
    proof {
        assert(texts(directory@) =~= segments.drop_last());
        assert(file@ == segments.last());
    }
    let mut i: usize = 0;
    while i < d.manifest_directory_patterns.len()
        invariant
            i <= d.manifest_directory_patterns@.len(),
            segments == split_on(path@, '/'),
            texts(directory@) == segments.drop_last(),
            file@ == segments.last(),
            forall|k: int|
                0 <= k < i ==> !lies_in(
                    path@,
                    (#[trigger] d.manifest_directory_patterns@[k]).0@,
                    d.manifest_directory_patterns@[k].1@,
                ),
        decreases d.manifest_directory_patterns@.len() - i,
    {
        let wanted = split(
            chars_of(d.manifest_directory_patterns[i].0.as_str()).as_slice(),
            '/',
        );
        let suffix = chars_of(d.manifest_directory_patterns[i].1.as_str());
        let in_directory = is_tail(&wanted, &directory);
        let ends = suffix.len() <= file.len() && is_at(
            file.as_slice(),
            suffix.as_slice(),
            file.len() - suffix.len(),
        );
        proof {
            if suffix@.len() <= file@.len() {
                let from = file@.len() - suffix@.len();
                assert(file@.subrange(from, file@.len() as int) =~= file@.skip(from));
                assert(suffix@.is_suffix_of(file@) == occurs_at(file@, suffix@, from));
            }
        }
        if in_directory && ends {
            proof {
                assert(lies_in(
                    path@,
                    d.manifest_directory_patterns@[i as int].0@,
                    d.manifest_directory_patterns@[i as int].1@,
                ));
            }
            return true;
        }
        i += 1;
    }
    false
}

// ---------------------------------------------------------------------------
// Laws
// ---------------------------------------------------------------------------

/// An exact manifest name takes precedence over every pattern and extension.
pub proof fn law_exact_name_wins(regs: Seq<EcosystemDescriptor>, filename: Seq<char>)
    requires
        latest(regs, claims_filename(filename)) is Some,
    ensures
        filename_owner(regs, filename) == latest(regs, claims_filename(filename)),
{
}

/// A pattern takes precedence over every extension.
pub proof fn law_pattern_wins_over_extension(regs: Seq<EcosystemDescriptor>, filename: Seq<char>)
    requires
        latest(regs, claims_filename(filename)) is None,
        pattern_owner(regs, filename) is Some,
    ensures
        filename_owner(regs, filename) == pattern_owner(regs, filename),
{
}

/// Among the patterns that apply there is at most one best one, so the choice does not depend
/// on the order in which patterns are looked at.
pub proof fn law_best_pattern_is_unique(
    regs: Seq<EcosystemDescriptor>,
    filename: Seq<char>,
    p: Seq<char>,
    q: Seq<char>,
)
    requires
        best_pattern(regs, filename, p),
        best_pattern(regs, filename, q),
    ensures
        p == q,
{
    lemma_preferred_order(p, q, p);
}

/// Whatever a file is routed to is registered.
pub proof fn law_routes_lead_to_registered_ecosystems(
    regs: Seq<EcosystemDescriptor>,
    filename: Seq<char>,
)
    requires
        filename_owner(regs, filename) is Some,
    ensures
        registered(regs, regs[filename_owner(regs, filename)->0].id@) is Some,
{
    lemma_owner_registered(regs, filename);
}

/// Registering an ecosystem makes it the one found under its identifier and leaves every other
/// identifier as it was.
pub proof fn law_registering_replaces_only_its_own_identifier(
    regs: Seq<EcosystemDescriptor>,
    added: EcosystemDescriptor,
    id: Seq<char>,
)
    ensures
        registered(regs.push(added), added.id@) == Some(regs.len() as int),
        id != added.id@ ==> registered(regs.push(added), id) == registered(regs, id),
{
    assert(regs.push(added).drop_last() =~= regs);
}

/// The extension is what follows the last dot, whatever stands before it; a name without a dot
/// has none.
pub proof fn law_extension_follows_the_last_dot(
    stem: Seq<char>,
    extension: Seq<char>,
    name: Seq<char>,
)
    requires
        !extension.contains('.'),
    ensures
        extension_of(stem + seq!['.'] + extension) == Some(extension),
        extension_of(name) is None <==> !name.contains('.'),
{
    let filename = stem + seq!['.'] + extension;
    assert(filename[stem.len() as int] == '.');
    law_split_at_separator(stem, '.', extension);
    law_split_without_separator(extension, '.');
    assert(split_on(filename, '.').last() == extension);
}

/// Whether no registration claims `filename` by name or by a pattern.
pub open spec fn unclaimed_by_name(regs: Seq<EcosystemDescriptor>, filename: Seq<char>) -> bool {
    forall|i: int| #![trigger regs[i]]
        0 <= i < regs.len() ==> {
            &&& !string_texts(regs[i].manifest_filenames@).contains(filename)
            &&& forall|k: int|
                0 <= k < regs[i].manifest_patterns@.len() ==> !pattern_matches(
                    (#[trigger] regs[i].manifest_patterns@[k])@,
                    filename,
                )
        }
}

proof fn lemma_unclaimed(regs: Seq<EcosystemDescriptor>, filename: Seq<char>)
    requires
        unclaimed_by_name(regs, filename),
    ensures
        latest(regs, claims_filename(filename)) is None,
        pattern_owner(regs, filename) is None,
{
    lemma_latest(regs, claims_filename(filename));
    if latest(regs, claims_filename(filename)) is Some {
        let i = latest(regs, claims_filename(filename))->0;
        assert(claims_filename(filename)(regs[i]));
    }
    assert forall|p: Seq<char>| !#[trigger] best_pattern(regs, filename, p) by {
        if best_pattern(regs, filename, p) {
            lemma_latest(regs, claims_pattern(p));
            let i = latest(regs, claims_pattern(p))->0;
            assert(claims_pattern(p)(regs[i]));
            let listed = string_texts(regs[i].manifest_patterns@);
            let k = choose|k: int| 0 <= k < listed.len() && listed[k] == p;
            assert(regs[i].manifest_patterns@[k]@ == p);
        }
    }
}

/// A file that nothing claims by name or pattern and that ends in a registered extension, in any
/// letter case, goes to the last registration of that extension, whatever stands before it.
pub proof fn law_extension_routes_to_its_last_registration(
    regs: Seq<EcosystemDescriptor>,
    stem: Seq<char>,
    extension: Seq<char>,
    i: int,
)
    requires
        !extension.contains('.'),
        unclaimed_by_name(regs, stem + seq!['.'] + extension),
        0 <= i < regs.len(),
        string_texts(regs[i].manifest_extensions@).contains(
            seq!['.'] + lowercase_text(extension),
        ),
        forall|j: int|
            i < j < regs.len() ==> !string_texts(
                (#[trigger] regs[j]).manifest_extensions@,
            ).contains(seq!['.'] + lowercase_text(extension)),
    ensures
        filename_owner(regs, stem + seq!['.'] + extension) == Some(i),
{
    let wanted = seq!['.'] + lowercase_text(extension);
    law_extension_follows_the_last_dot(stem, extension, stem);
    lemma_unclaimed(regs, stem + seq!['.'] + extension);
    law_last_claim_counts(regs, claims_extension(wanted), i);
}

/// A file that nothing claims by name, by pattern or by extension has no owner; a name without a
/// dot has no extension to be claimed by.
pub proof fn law_unclaimed_files_have_no_owner(
    regs: Seq<EcosystemDescriptor>,
    stem: Seq<char>,
    extension: Seq<char>,
)
    requires
        !extension.contains('.'),
        forall|j: int|
            0 <= j < regs.len() ==> !string_texts(
                (#[trigger] regs[j]).manifest_extensions@,
            ).contains(seq!['.'] + lowercase_text(extension)),
    ensures
        unclaimed_by_name(regs, stem + seq!['.'] + extension) ==> filename_owner(
            regs,
            stem + seq!['.'] + extension,
        ) is None,
        unclaimed_by_name(regs, extension) ==> filename_owner(regs, extension) is None,
{
    let wanted = seq!['.'] + lowercase_text(extension);
    law_extension_follows_the_last_dot(stem, extension, extension);
    if unclaimed_by_name(regs, stem + seq!['.'] + extension) {
        lemma_unclaimed(regs, stem + seq!['.'] + extension);
        lemma_latest(regs, claims_extension(wanted));
        if latest(regs, claims_extension(wanted)) is Some {
            let i = latest(regs, claims_extension(wanted))->0;
            assert(claims_extension(wanted)(regs[i]));
        }
    }
    if unclaimed_by_name(regs, extension) {
        lemma_unclaimed(regs, extension);
    }
}

/// Where several registrations claim the same thing, the last one counts; where none does, none.
pub proof fn law_last_claim_counts(
    regs: Seq<EcosystemDescriptor>,
    claim: spec_fn(EcosystemDescriptor) -> bool,
    i: int,
)
    ensures
        latest(regs, claim) == Some(i) <==> {
            &&& 0 <= i < regs.len()
            &&& claim(regs[i])
            &&& forall|j: int| i < j < regs.len() ==> !claim(#[trigger] regs[j])
        },
        latest(regs, claim) is None <==> forall|j: int|
            0 <= j < regs.len() ==> !claim(#[trigger] regs[j]),
{
    lemma_latest(regs, claim);
    if latest(regs, claim) is Some {
        let k = latest(regs, claim)->0;
        assert(claim(regs[k]));
        if 0 <= i < regs.len() && claim(regs[i]) && (forall|j: int|
            i < j < regs.len() ==> !claim(#[trigger] regs[j])) {
            assert(k == i);
        }
    } else if 0 <= i < regs.len() {
        assert(!claim(regs[i]));
    }
}

/// A file goes to the last registration that lists its exact name, and an ecosystem is found
/// under its identifier as it was registered last.
pub proof fn law_names_and_identifiers_go_to_their_last_registration(
    regs: Seq<EcosystemDescriptor>,
    name: Seq<char>,
    i: int,
)
    requires
        0 <= i < regs.len(),
    ensures
        string_texts(regs[i].manifest_filenames@).contains(name) && (forall|j: int|
            i < j < regs.len() ==> !string_texts(
                (#[trigger] regs[j]).manifest_filenames@,
            ).contains(name)) ==> filename_owner(regs, name) == Some(i),
        regs[i].id@ == name && (forall|j: int|
            i < j < regs.len() ==> (#[trigger] regs[j]).id@ != name) <==> registered(regs, name)
            == Some(i),
        registered(regs, name) is None <==> forall|j: int|
            0 <= j < regs.len() ==> (#[trigger] regs[j]).id@ != name,
        current(regs, i) <==> forall|j: int|
            i < j < regs.len() ==> (#[trigger] regs[j]).id@ != regs[i].id@,
{
    law_last_claim_counts(regs, claims_filename(name), i);
    law_last_claim_counts(regs, has_id(name), i);
    law_last_claim_counts(regs, has_id(regs[i].id@), i);
}

/// What a route leads to has the identifier of the registration that owns it, in that
/// identifier's last registration.
pub proof fn law_routes_lead_to_the_last_of_their_identifier(
    r: Option<&EcosystemDescriptor>,
    regs: Seq<EcosystemDescriptor>,
    i: int,
)
    requires
        0 <= i < regs.len(),
    ensures
        resolves(r, regs, Some(i)) ==> exists|k: int|
            #![trigger regs[k]]
            {
                &&& 0 <= k < regs.len()
                &&& r == Some(&regs[k])
                &&& regs[k].id@ == regs[i].id@
                &&& forall|j: int| k < j < regs.len() ==> (#[trigger] regs[j]).id@ != regs[i].id@
            },
        resolves(r, regs, None) ==> r is None,
{
    let claim = has_id(regs[i].id@);
    lemma_latest(regs, claim);
    if registered(regs, regs[i].id@) is None {
        assert(!claim(regs[i]));
    } else {
        let k = registered(regs, regs[i].id@)->0;
        assert(claim(regs[k]));
        assert forall|j: int| k < j < regs.len() implies (#[trigger] regs[j]).id@
            != regs[i].id@ by {
            assert(!claim(regs[j]));
        }
    }
}

/// A pattern `prefix*suffix` matches exactly the names that begin with the prefix and go on,
/// after anything or nothing, to end in the suffix. A text without `*` matches nothing.
pub proof fn law_pattern_matches_what_it_frames(
    prefix: Seq<char>,
    suffix: Seq<char>,
    filename: Seq<char>,
    text: Seq<char>,
)
    requires
        !prefix.contains('*'),
        !text.contains('*'),
    ensures
        pattern_matches(prefix + seq!['*'] + suffix, filename) <==> exists|middle: Seq<char>|
            filename == #[trigger] (prefix + middle + suffix),
        !pattern_matches(text, filename),
{
    let pattern = prefix + seq!['*'] + suffix;
    let star = prefix.len() as int;
    assert(pattern[star] == '*');
    assert forall|j: int| 0 <= j < star implies pattern[j] != '*' by {
        assert(prefix.contains(prefix[j]));
    }
    assert(pattern_splits(pattern, star));
    assert(pattern.take(star) =~= prefix);
    assert(pattern.skip(star + 1) =~= suffix);
    assert forall|other: int| #[trigger] pattern_splits(pattern, other) implies other == star by {
    }
    if pattern_matches(pattern, filename) {
        let middle = filename.subrange(star, filename.len() - suffix.len());
        assert(filename.take(star) =~= prefix);
        assert(filename.skip(filename.len() - suffix.len()) =~= suffix);
        assert forall|n: int| 0 <= n < filename.len() implies filename[n] == (prefix + middle
            + suffix)[n] by {
            if n < star {
                assert(filename.take(star)[n] == prefix[n]);
            } else if n >= filename.len() - suffix.len() {
                assert(filename.skip(filename.len() - suffix.len())[n - (filename.len()
                    - suffix.len())] == filename[n]);
            }
        }
        assert(filename =~= prefix + middle + suffix);
    }
    if exists|middle: Seq<char>| filename == #[trigger] (prefix + middle + suffix) {
        let middle = choose|middle: Seq<char>| filename == #[trigger] (prefix + middle + suffix);
        assert(filename.take(star) =~= prefix);
        assert(filename.skip(filename.len() - suffix.len()) =~= suffix);
    }
    if pattern_matches(text, filename) {
        let at = choose|at: int| #[trigger] pattern_splits(text, at);
        assert(text.contains(text[at]));
    }
}

/// A file that no name claims goes by the longest pattern that matches it, the first in the
/// order of strings among equally long ones, and to the last registration of that pattern.
pub proof fn law_longest_pattern_owns_the_file(
    regs: Seq<EcosystemDescriptor>,
    filename: Seq<char>,
    i: int,
    k: int,
)
    requires
        0 <= i < regs.len(),
        0 <= k < regs[i].manifest_patterns@.len(),
        pattern_matches(regs[i].manifest_patterns@[k]@, filename),
        forall|j: int|
            0 <= j < regs.len() ==> !string_texts(
                (#[trigger] regs[j]).manifest_filenames@,
            ).contains(filename),
        forall|j: int|
            i < j < regs.len() ==> !string_texts((#[trigger] regs[j]).manifest_patterns@).contains(
                regs[i].manifest_patterns@[k]@,
            ),
        forall|a: int, b: int|
            0 <= a < regs.len() && 0 <= b < regs[a].manifest_patterns@.len() && pattern_matches(
                (#[trigger] regs[a].manifest_patterns@[b])@,
                filename,
            ) ==> {
                let p = vstd::utf8::encode_utf8(regs[i].manifest_patterns@[k]@).len();
                let q = vstd::utf8::encode_utf8(regs[a].manifest_patterns@[b]@).len();
                p > q || p == q && text_le(
                    regs[i].manifest_patterns@[k]@,
                    regs[a].manifest_patterns@[b]@,
                )
            },
    ensures
        filename_owner(regs, filename) == Some(i),
{
    let p = regs[i].manifest_patterns@[k]@;
    assert(string_texts(regs[i].manifest_patterns@)[k] == p);
    law_last_claim_counts(regs, claims_pattern(p), i);
    law_last_claim_counts(regs, claims_filename(filename), i);
    assert forall|other: Seq<char>| #[trigger]
        pattern_applies(regs, filename, other) implies preferred(p, other) by {
        lemma_latest(regs, claims_pattern(other));
        let a = latest(regs, claims_pattern(other))->0;
        let listed = string_texts(regs[a].manifest_patterns@);
        assert(claims_pattern(other)(regs[a]));
        let b = choose|b: int| 0 <= b < listed.len() && listed[b] == other;
        assert(regs[a].manifest_patterns@[b]@ == other);
    }
    assert(best_pattern(regs, filename, p));
    let chosen = choose|p: Seq<char>| #[trigger] best_pattern(regs, filename, p);
    law_best_pattern_is_unique(regs, filename, p, chosen);
}

/// A file lies in a directory where the directory's path ends in the given one, at a `/` or as a
/// whole, and its name ends in the suffix. A path without a `/` lies in none.
pub proof fn law_files_lie_in_their_directory(
    root: Seq<char>,
    directory: Seq<char>,
    file: Seq<char>,
    suffix: Seq<char>,
)
    requires
        !file.contains('/'),
    ensures
        lies_in(root + seq!['/'] + (directory + seq!['/'] + file), directory, suffix)
            <==> suffix.is_suffix_of(file),
        lies_in(directory + seq!['/'] + file, directory, suffix) <==> suffix.is_suffix_of(file),
        !lies_in(file, directory, suffix),
        root.len() > 0 && !root.contains('/') ==> !lies_in(
            root + directory + seq!['/'] + file,
            directory,
            suffix,
        ),
{
    let inner = directory + seq!['/'] + file;
    law_split_without_separator(file, '/');
    law_split_at_separator(directory, '/', file);
    law_split_at_separator(root, '/', inner);
    let wanted = split_on(directory, '/');
    law_split_counts_separators(directory, '/');
    let short = split_on(inner, '/');
    assert(short =~= wanted + seq![file]);
    assert(short.drop_last() =~= wanted);
    assert(wanted.skip(0) =~= wanted);
    assert(wanted.is_suffix_of(short.drop_last()));
    let long = split_on(root + seq!['/'] + inner, '/');
    let above = split_on(root, '/');
    assert(long =~= above + wanted + seq![file]);
    assert(long.drop_last() =~= above + wanted);
    assert((above + wanted).skip(above.len() as int) =~= wanted);
    assert(wanted.is_suffix_of(long.drop_last()));
    let alone = split_on(file, '/');
    assert(alone.drop_last().len() == 0);
    assert(!wanted.is_suffix_of(alone.drop_last()));
    if root.len() > 0 && !root.contains('/') {
        let glued = root + directory;
        law_split_at_separator(glued, '/', file);
        lemma_first_piece_of_prefixed(root, directory);
        let parts = split_on(glued + seq!['/'] + file, '/');
        assert(parts =~= split_on(glued, '/') + seq![file]);
        assert(parts.drop_last() =~= split_on(glued, '/'));
        if wanted.is_suffix_of(parts.drop_last()) {
            assert(split_on(glued, '/').skip(0) =~= split_on(glued, '/'));
            assert(wanted[0] == split_on(glued, '/')[0]);
            assert(wanted[0].len() != (root + wanted[0]).len());
        }
    }
}

proof fn lemma_first_piece_of_prefixed(root: Seq<char>, s: Seq<char>)
    requires
        !root.contains('/'),
    ensures
        split_on(root + s, '/').len() == split_on(s, '/').len(),
        split_on(s, '/').len() > 0,
        split_on(root + s, '/')[0] == root + split_on(s, '/')[0],
    decreases s.len(),
{
    if s.len() == 0 {
        assert(root + s =~= root);
        law_split_without_separator(root, '/');
        assert(root + Seq::<char>::empty() =~= root);
        assert(split_on(s, '/')[0] =~= Seq::<char>::empty());
    } else {
        lemma_first_piece_of_prefixed(root, s.drop_last());
        assert((root + s).drop_last() =~= root + s.drop_last());
        let before = split_on(s.drop_last(), '/');
        let longer = split_on(root + s.drop_last(), '/');
        if s.last() != '/' && before.len() == 1 {
            assert(longer.last() == longer[0]);
            assert((root + before[0]).push(s.last()) =~= root + before[0].push(s.last()));
        }
    }
}

/// Every identifier that was registered is listed, once, and nothing else is.
pub proof fn law_every_identifier_is_listed_once(regs: Seq<EcosystemDescriptor>, id: Seq<char>)
    ensures
        current_ids(regs, regs.len()).no_duplicates(),
        current_ids(regs, regs.len()).contains(id) <==> exists|i: int|
            0 <= i < regs.len() && (#[trigger] regs[i]).id@ == id,
{
    lemma_current_ids(regs, regs.len());
    let listed = current_ids(regs, regs.len());
    lemma_latest(regs, has_id(id));
    if exists|i: int| 0 <= i < regs.len() && (#[trigger] regs[i]).id@ == id {
        let i = choose|i: int| 0 <= i < regs.len() && (#[trigger] regs[i]).id@ == id;
        assert(has_id(id)(regs[i]));
        let k = registered(regs, id)->0;
        assert(has_id(id)(regs[k]));
        assert(current(regs, k));
        assert(listed.contains(regs[k].id@));
    }
    if listed.contains(id) {
        let n = choose|n: int| 0 <= n < listed.len() && listed[n] == id;
        assert(is_current_id(regs, regs.len(), listed[n]));
    }
}

spec fn is_current_id(regs: Seq<EcosystemDescriptor>, n: nat, id: Seq<char>) -> bool {
    exists|i: int| 0 <= i < n && current(regs, i) && (#[trigger] regs[i]).id@ == id
}

proof fn lemma_current_ids(regs: Seq<EcosystemDescriptor>, n: nat)
    requires
        n <= regs.len(),
    ensures
        current_ids(regs, n).no_duplicates(),
        forall|i: int|
            0 <= i < n && #[trigger] current(regs, i) ==> current_ids(regs, n).contains(
                regs[i].id@,
            ),
        forall|k: int|
            0 <= k < current_ids(regs, n).len() ==> is_current_id(
                regs,
                n,
                #[trigger] current_ids(regs, n)[k],
            ),
    decreases n,
{
    if n > 0 {
        let m = (n - 1) as nat;
        lemma_current_ids(regs, m);
        let before = current_ids(regs, m);
        let after = current_ids(regs, n);
        assert forall|i: int| 0 <= i < n && #[trigger] current(regs, i) implies after.contains(
            regs[i].id@,
        ) by {
            if i < m {
                assert(before.contains(regs[i].id@));
                let k = choose|k: int| 0 <= k < before.len() && before[k] == regs[i].id@;
                assert(after[k] == regs[i].id@);
            } else {
                assert(after[before.len() as int] == regs[i].id@);
            }
        }
        assert forall|k: int| 0 <= k < after.len() implies is_current_id(
            regs,
            n,
            #[trigger] after[k],
        ) by {
            if k < before.len() {
                assert(after[k] == before[k]);
                assert(is_current_id(regs, m, before[k]));
                let i = choose|i: int|
                    0 <= i < m && current(regs, i) && (#[trigger] regs[i]).id@ == before[k];
                assert(current(regs, i));
            } else {
                assert(current(regs, m as int));
                assert(regs[m as int].id@ == after[k]);
            }
        }
        assert forall|a: int, b: int| 0 <= a < b < after.len() implies after[a] != after[b] by {
            if b < before.len() {
                assert(before[a] != before[b]);
            } else {
                assert(is_current_id(regs, m, before[a]));
                let i = choose|i: int|
                    0 <= i < m && current(regs, i) && (#[trigger] regs[i]).id@ == before[a];
                assert(registered(regs, regs[i].id@) == Some(i));
                assert(registered(regs, regs[m as int].id@) == Some(m as int));
            }
        }
    }
}

/// The lock-file patterns are those of the ecosystems that count, each for a file of that name at
/// any depth, and there are no others.
pub proof fn law_every_lock_file_has_its_pattern(regs: Seq<EcosystemDescriptor>, glob: Seq<char>)
    ensures
        current_globs(regs, regs.len()).contains(glob) <==> exists|i: int, f: int|
            {
                &&& 0 <= i < regs.len()
                &&& 0 <= f < regs[i].lockfile_filenames@.len()
                &&& glob == seq!['*', '*', '/'] + (#[trigger] regs[i].lockfile_filenames@[f])@
                &&& current(regs, i)
            },
{
    lemma_current_globs(regs, regs.len(), glob);
}

proof fn lemma_current_globs(regs: Seq<EcosystemDescriptor>, n: nat, glob: Seq<char>)
    requires
        n <= regs.len(),
    ensures
        current_globs(regs, n).contains(glob) <==> exists|i: int, f: int|
            {
                &&& 0 <= i < n
                &&& 0 <= f < regs[i].lockfile_filenames@.len()
                &&& glob == seq!['*', '*', '/'] + (#[trigger] regs[i].lockfile_filenames@[f])@
                &&& current(regs, i)
            },
    decreases n,
{
    reveal_strlit("**/");
    assert("**/"@ =~= seq!['*', '*', '/']);
    if n > 0 {
        let m = (n - 1) as nat;
        lemma_current_globs(regs, m, glob);
        let before = current_globs(regs, m);
        let after = current_globs(regs, n);
        let own = lockfile_globs(regs[m as int]);
        if after.contains(glob) {
            let k = choose|k: int| 0 <= k < after.len() && after[k] == glob;
            if k < before.len() {
                assert(before[k] == glob);
                assert(before.contains(glob));
            } else {
                assert(own[k - before.len()] == glob);
                let f = k - before.len();
                assert(glob == seq!['*', '*', '/'] + regs[m as int].lockfile_filenames@[f]@);
            }
        }
        if exists|i: int, f: int|
            {
                &&& 0 <= i < n
                &&& 0 <= f < regs[i].lockfile_filenames@.len()
                &&& glob == seq!['*', '*', '/'] + (#[trigger] regs[i].lockfile_filenames@[f])@
                &&& current(regs, i)
            } {
            let (i, f) = choose|i: int, f: int|
                {
                    &&& 0 <= i < n
                    &&& 0 <= f < regs[i].lockfile_filenames@.len()
                    &&& glob == seq!['*', '*', '/'] + (#[trigger] regs[i].lockfile_filenames@[f])@
                    &&& current(regs, i)
                };
            if i < m {
                assert(glob == seq!['*', '*', '/'] + regs[i].lockfile_filenames@[f]@);
                assert(before.contains(glob));
                let k = choose|k: int| 0 <= k < before.len() && before[k] == glob;
                assert(after[k] == glob);
            } else {
                assert(own[f] == glob);
                assert(after[before.len() + f] == glob);
            }
        }
    }
}

/// Every directory pattern of an ecosystem claims what lies in its directory, and the first
/// registration that claims a path owns it.
pub proof fn law_directory_patterns_claim_their_files(
    regs: Seq<EcosystemDescriptor>,
    path: Seq<char>,
    i: int,
    k: int,
)
    requires
        0 <= i < regs.len(),
    ensures
        0 <= k < regs[i].manifest_directory_patterns@.len() && lies_in(
            path,
            regs[i].manifest_directory_patterns@[k].0@,
            regs[i].manifest_directory_patterns@[k].1@,
        ) ==> claims_path(regs[i], path),
        claims_path(regs[i], path) ==> exists|n: int|
            0 <= n < regs[i].manifest_directory_patterns@.len() && lies_in(
                path,
                (#[trigger] regs[i].manifest_directory_patterns@[n]).0@,
                regs[i].manifest_directory_patterns@[n].1@,
            ),
        claims_path(regs[i], path) && (forall|j: int|
            0 <= j < i ==> !claims_path(#[trigger] regs[j], path)) <==> path_owner(regs, path, i),
{
}

} // verus!
