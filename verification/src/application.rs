//! The renaming engine: the filesystem port it works against, the in-memory
//! implementation of that port used for deterministic testing, and the
//! orchestration of counting and executing an ordered list of rules.

use vstd::prelude::*;
use crate::domain::Rule;
use crate::pattern::{pattern_matches, pattern_ok, replaced_of, CompiledPattern, PatternError};
use crate::report::{build_found_line, build_mapping_line, found_line, mapping_line};
use crate::telemetry::Logger;

verus! {

/// The abstract value of one filesystem entry: its full path as text, and
/// whether it is a directory.
pub ghost struct EntryView {
    pub path: Seq<char>,
    pub is_dir: bool,
}

/// One filesystem entry discovered by a match query.
#[derive(Debug)]
pub struct FileEntry {
    pub path: String,
    pub is_dir: bool,
}

impl View for FileEntry {
    type V = EntryView;

    open spec fn view(&self) -> EntryView {
        EntryView { path: self.path@, is_dir: self.is_dir }
    }
}

impl DeepView for FileEntry {
    type V = EntryView;

    open spec fn deep_view(&self) -> EntryView {
        self@
    }
}

impl Clone for FileEntry {
    fn clone(&self) -> (r: FileEntry)
        ensures
            r == *self,
    {
        FileEntry { path: self.path.clone(), is_dir: self.is_dir }
    }
}

/// The abstract value of one performed move call.
pub ghost struct MoveView {
    pub from: Seq<char>,
    pub to: Seq<char>,
}

/// One recorded move call, oldest first in [`MemFileSystem::moved`].
#[derive(Debug, PartialEq)]
pub struct MoveRecord {
    pub from: String,
    pub to: String,
}

impl View for MoveRecord {
    type V = MoveView;

    open spec fn view(&self) -> MoveView {
        MoveView { from: self.from@, to: self.to@ }
    }
}

impl DeepView for MoveRecord {
    type V = MoveView;

    open spec fn deep_view(&self) -> MoveView {
        self@
    }
}

/// A filesystem enumeration or move failure.
#[derive(Debug, PartialEq)]
pub struct IoError {
    pub message: String,
}

/// Why a count or execute operation failed: the rule's pattern text did not
/// compile, or the filesystem port reported a failure.
#[derive(Debug, PartialEq)]
pub enum RenameError {
    Pattern(PatternError),
    Io(IoError),
}

/// The entries of `entries` whose path the pattern matches, in order.
pub open spec fn matching_of(entries: Seq<EntryView>, pattern: Seq<char>) -> Seq<EntryView>
    decreases entries.len(),
{
    if entries.len() == 0 {
        Seq::empty()
    } else {
        let rest = matching_of(entries.drop_last(), pattern);
        if pattern_matches(pattern, entries.last().path) {
            rest.push(entries.last())
        } else {
            rest
        }
    }
}

/// How many entries of `entries` are files.
pub open spec fn files_in(entries: Seq<EntryView>) -> nat
    decreases entries.len(),
{
    if entries.len() == 0 {
        0
    } else {
        files_in(entries.drop_last()) + if entries.last().is_dir {
            0nat
        } else {
            1nat
        }
    }
}

/// How many entries of `entries` are directories.
pub open spec fn dirs_in(entries: Seq<EntryView>) -> nat
    decreases entries.len(),
{
    if entries.len() == 0 {
        0
    } else {
        dirs_in(entries.drop_last()) + if entries.last().is_dir {
            1nat
        } else {
            0nat
        }
    }
}

/// Law: partitioning entries by `is_dir` loses nothing; the file count and
/// the directory count always add up to the number of entries.
pub proof fn lemma_counts_partition(entries: Seq<EntryView>)
    ensures
        files_in(entries) + dirs_in(entries) == entries.len(),
    decreases entries.len(),
{
    if entries.len() > 0 {
        lemma_counts_partition(entries.drop_last());
    }
}

/// The moves one rule plans when evaluated against `entries`: one per
/// matching entry, in order, from the entry's path to the path computed by
/// substituting the pattern's capture groups into the template.
pub open spec fn planned_of(
    entries: Seq<EntryView>,
    pattern: Seq<char>,
    template: Seq<char>,
) -> Seq<MoveView> {
    matching_of(entries, pattern).map_values(
        |e: EntryView| MoveView { from: e.path, to: replaced_of(pattern, e.path, template) },
    )
}

/// Law: a pattern that matches none of the entries yields a file count of
/// zero and a directory count of zero after counting (written back as
/// `Some(0)`, distinct from the unset state), and plans zero moves during
/// execution.
pub proof fn lemma_no_matches(entries: Seq<EntryView>, pattern: Seq<char>, template: Seq<char>)
    requires
        forall|i: int|
            0 <= i < entries.len() ==> !pattern_matches(pattern, (#[trigger] entries[i]).path),
    ensures
        matching_of(entries, pattern) == Seq::<EntryView>::empty(),
        files_in(matching_of(entries, pattern)) == 0,
        dirs_in(matching_of(entries, pattern)) == 0,
        planned_of(entries, pattern, template) == Seq::<MoveView>::empty(),
    decreases entries.len(),
{
    if entries.len() > 0 {
        lemma_no_matches(entries.drop_last(), pattern, template);
    }
    assert(planned_of(entries, pattern, template) =~= Seq::<MoveView>::empty());
}

/// Every entry whose path the pattern matches is in the matching set.
pub proof fn lemma_matching_of_contains(entries: Seq<EntryView>, pattern: Seq<char>, i: int)
    requires
        0 <= i < entries.len(),
        pattern_matches(pattern, entries[i].path),
    ensures
        matching_of(entries, pattern).contains(entries[i]),
    decreases entries.len(),
{
    if i < entries.len() - 1 {
        lemma_matching_of_contains(entries.drop_last(), pattern, i);
        assert(entries.drop_last()[i] == entries[i]);
        let ms = matching_of(entries.drop_last(), pattern);
        let j = choose|j: int| 0 <= j < ms.len() && ms[j] == entries[i];
        if pattern_matches(pattern, entries.last().path) {
            assert(matching_of(entries, pattern)[j] == entries[i]);
        }
    } else {
        assert(matching_of(entries, pattern).last() == entries[i]);
    }
}

/// Law: an entry whose computed destination equals its own path is still
/// planned as a move; a no-op rename is not special-cased away.
pub proof fn lemma_identity_move_planned(
    entries: Seq<EntryView>,
    pattern: Seq<char>,
    template: Seq<char>,
    i: int,
)
    requires
        0 <= i < entries.len(),
        pattern_matches(pattern, entries[i].path),
        replaced_of(pattern, entries[i].path, template) == entries[i].path,
    ensures
        planned_of(entries, pattern, template).contains(
            MoveView { from: entries[i].path, to: entries[i].path },
        ),
{
    lemma_matching_of_contains(entries, pattern, i);
    let ms = matching_of(entries, pattern);
    let j = choose|j: int| 0 <= j < ms.len() && ms[j] == entries[i];
    assert(planned_of(entries, pattern, template)[j] == MoveView {
        from: entries[i].path,
        to: entries[i].path,
    });
}

proof fn lemma_matching_of_push(entries: Seq<EntryView>, e: EntryView, pattern: Seq<char>)
    ensures
        matching_of(entries.push(e), pattern) == if pattern_matches(pattern, e.path) {
            matching_of(entries, pattern).push(e)
        } else {
            matching_of(entries, pattern)
        },
{
    assert(entries.push(e).drop_last() =~= entries);
    assert(entries.push(e).last() == e);
}

proof fn lemma_counts_push(entries: Seq<EntryView>, e: EntryView)
    ensures
        files_in(entries.push(e)) == files_in(entries) + if e.is_dir {
            0nat
        } else {
            1nat
        },
        dirs_in(entries.push(e)) == dirs_in(entries) + if e.is_dir {
            1nat
        } else {
            0nat
        },
{
    assert(entries.push(e).drop_last() =~= entries);
    assert(entries.push(e).last() == e);
}

/// The filesystem port: enumerate the entries whose full path matches a
/// compiled pattern, and move one entry. An implementation is abstracted by
/// the entries it shows, the move calls performed through it, and whether it
/// is a deterministic in-memory port.
pub trait FileSystem: Sized {
    /// The entries currently visible to matching. An implementation outside
    /// the library may leave this at its default; the engine then learns
    /// nothing about which entries such a port shows.
    open spec fn entries(&self) -> Seq<EntryView> {
        Seq::empty()
    }

    /// The move calls successfully performed through this port, oldest
    /// first.
    open spec fn moves(&self) -> Seq<MoveView> {
        Seq::empty()
    }

    /// Whether this is a deterministic in-memory port: queries cannot fail,
    /// and moves are recorded without changing the visible entries. The
    /// default says no, which promises nothing extra.
    open spec fn stable(&self) -> bool {
        false
    }

    /// Walks the whole tree and returns every entry whose full path the
    /// pattern matches, each tagged with whether it is a directory.
    fn find_matches(&self, pattern: &CompiledPattern) -> (r: Result<Vec<FileEntry>, IoError>)
        ensures
            r matches Ok(v) ==> v.deep_view() == matching_of(self.entries(), pattern@),
            self.stable() ==> r is Ok,
    ;

    /// Moves one entry from `from` to `to`, creating missing parents of
    /// `to` first; on failure the source is left in place.
    fn move_file(&mut self, from: &str, to: &str) -> (r: Result<(), IoError>)
        ensures
            final(self).stable() == old(self).stable(),
            r is Ok ==> final(self).moves() == old(self).moves().push(
                MoveView { from: from@, to: to@ },
            ),
            r is Err ==> final(self).moves() == old(self).moves(),
            old(self).stable() ==> r is Ok && final(self).entries() == old(self).entries(),
    ;
}

/// A deterministic in-memory filesystem: a fixed list of entries, and a
/// record of every move call, for tests and dry runs.
pub struct MemFileSystem {
    pub entries: Vec<FileEntry>,
    pub moved: Vec<MoveRecord>,
}

impl MemFileSystem {
    /// An in-memory filesystem holding exactly `entries`, with no moves
    /// recorded yet.
    pub fn new(entries: Vec<FileEntry>) -> (r: MemFileSystem)
        ensures
            r.entries == entries,
            r.moved@ == Seq::<MoveRecord>::empty(),
    {
        MemFileSystem { entries, moved: Vec::new() }
    }
}

impl FileSystem for MemFileSystem {
    open spec fn entries(&self) -> Seq<EntryView> {
        self.entries.deep_view()
    }

    open spec fn moves(&self) -> Seq<MoveView> {
        self.moved.deep_view()
    }

    open spec fn stable(&self) -> bool {
        true
    }

    fn find_matches(&self, pattern: &CompiledPattern) -> (r: Result<Vec<FileEntry>, IoError>) {
        let ghost all = self.entries.deep_view();
        let mut out: Vec<FileEntry> = Vec::new();
        let mut i: usize = 0;
        proof {
            assert(all.take(0) =~= Seq::<EntryView>::empty());
            assert(out.deep_view() =~= matching_of(all.take(0), pattern@));
        }
        while i < self.entries.len()
            invariant
                i <= all.len(),
                all == self.entries.deep_view(),
                out.deep_view() == matching_of(all.take(i as int), pattern@),
            decreases all.len() - i,
        {
            proof {
                lemma_matching_of_push(all.take(i as int), all[i as int], pattern@);
                assert(all.take(i as int).push(all[i as int]) =~= all.take(i + 1));
            }
            let e = &self.entries[i];
            if pattern.is_match(e.path.as_str()) {
                out.push(e.clone());
                proof {
                    assert(out.deep_view() =~= matching_of(all.take(i + 1), pattern@));
                }
            }
            i += 1;
        }
        proof {
            assert(all.take(all.len() as int) =~= all);
        }
        Ok(out)
    }

    fn move_file(&mut self, from: &str, to: &str) -> (r: Result<(), IoError>) {
        self.moved.push(MoveRecord { from: from.to_owned(), to: to.to_owned() });
        proof {
            assert(self.moved.deep_view() =~= old(self).moved.deep_view().push(
                MoveView { from: from@, to: to@ },
            ));
        }
        Ok(())
    }
}

/// Whether `updated` is `before` with the counts of a count operation
/// against `entries` written back: pattern and template text unchanged, and
/// both counts set to the sizes of the matching entries partitioned by
/// `is_dir`.
pub open spec fn counts_written(updated: Rule, before: Rule, entries: Seq<EntryView>) -> bool {
    let ms = matching_of(entries, before.from@);
    &&& updated.from == before.from
    &&& updated.to == before.to
    &&& updated.file_match_count matches Some(c) && c == files_in(ms)
    &&& updated.dir_match_count matches Some(c) && c == dirs_in(ms)
}

/// The line one count operation against `entries` logs for `rule`.
pub open spec fn count_line_of(rule: Rule, entries: Seq<EntryView>) -> Seq<char> {
    let ms = matching_of(entries, rule.from@);
    found_line(files_in(ms), dirs_in(ms), rule.from@)
}

/// The lines a count over `rules` against `entries` logs, in rule order.
pub open spec fn count_lines_of(rules: Seq<Rule>, entries: Seq<EntryView>) -> Seq<Seq<char>>
    decreases rules.len(),
{
    if rules.len() == 0 {
        Seq::empty()
    } else {
        count_lines_of(rules.drop_last(), entries).push(count_line_of(rules.last(), entries))
    }
}

/// The one line execution logs per rule, in rule order.
pub open spec fn mapping_lines_of(rules: Seq<Rule>) -> Seq<Seq<char>>
    decreases rules.len(),
{
    if rules.len() == 0 {
        Seq::empty()
    } else {
        mapping_lines_of(rules.drop_last()).push(
            mapping_line(rules.last().from@, rules.last().to@),
        )
    }
}

/// The moves a whole batch plans when every rule is evaluated against the
/// same entries, rule by rule in order.
pub open spec fn batch_moves_of(rules: Seq<Rule>, entries: Seq<EntryView>) -> Seq<MoveView>
    decreases rules.len(),
{
    if rules.len() == 0 {
        Seq::empty()
    } else {
        batch_moves_of(rules.drop_last(), entries) + planned_of(
            entries,
            rules.last().from@,
            rules.last().to@,
        )
    }
}

/// The renaming engine: orchestrates counting and execution across an
/// ordered list of rules, owns the substitution step, and reports progress
/// through the logging port.
pub struct Renamer<L: Logger, F: FileSystem> {
    pub logger: L,
    pub fs: F,
}

impl<L: Logger, F: FileSystem> Renamer<L, F> {
    /// An engine reporting to `logger` and working against `fs`.
    pub fn new(logger: L, fs: F) -> (r: Renamer<L, F>)
        ensures
            r.logger == logger,
            r.fs == fs,
    {
        Renamer { logger, fs }
    }

    /// Compiles `rule`'s pattern, queries the filesystem port for matches,
    /// writes the file and directory counts back into `rule`, logs one
    /// `Found <files> files and <dirs> directories for '<pattern>'` line,
    /// and returns the total match count.
    ///
    /// On a pattern or filesystem failure the rule's counts are left
    /// untouched (stale counts signal "recount needed", not "zero matches")
    /// and nothing is logged.
    pub fn count_matches(&mut self, rule: &mut Rule) -> (r: Result<usize, RenameError>)
        ensures
            final(self).fs == old(self).fs,
            match r {
                Ok(n) => ({
                    let ms = matching_of(old(self).fs.entries(), old(rule).from@);
                    &&& pattern_ok(old(rule).from@)
                    &&& counts_written(*final(rule), *old(rule), old(self).fs.entries())
                    &&& n == files_in(ms) + dirs_in(ms)
                    &&& final(self).logger.lines() == old(self).logger.lines().push(
                        count_line_of(*old(rule), old(self).fs.entries()),
                    )
                }),
                Err(e) => {
                    &&& *final(rule) == *old(rule)
                    &&& final(self).logger == old(self).logger
                    &&& (e is Pattern <==> !pattern_ok(old(rule).from@))
                },
            },
            old(self).fs.stable() && pattern_ok(old(rule).from@) ==> r is Ok,
    {
        let compiled = match CompiledPattern::compile(rule.from.as_str()) {
            Ok(c) => c,
            Err(e) => {
                return Err(RenameError::Pattern(e));
            },
        };
        let found = match self.fs.find_matches(&compiled) {
            Ok(v) => v,
            Err(e) => {
                return Err(RenameError::Io(e));
            },
        };
        let ghost ms = matching_of(old(self).fs.entries(), old(rule).from@);
        let mut file_count: usize = 0;
        let mut dir_count: usize = 0;
        let mut i: usize = 0;
        proof {
            assert(ms.take(0) =~= Seq::<EntryView>::empty());
        }
        while i < found.len()
            invariant
                i <= ms.len(),
                found.deep_view() == ms,
                file_count == files_in(ms.take(i as int)),
                dir_count == dirs_in(ms.take(i as int)),
                file_count + dir_count == i,
            decreases ms.len() - i,
        {
            proof {
                lemma_counts_push(ms.take(i as int), ms[i as int]);
                assert(ms.take(i as int).push(ms[i as int]) =~= ms.take(i + 1));
            }
            if found[i].is_dir {
                dir_count += 1;
            } else {
                file_count += 1;
            }
            i += 1;
        }
        proof {
            assert(ms.take(ms.len() as int) =~= ms);
        }
        rule.file_match_count = Some(file_count);
        rule.dir_match_count = Some(dir_count);
        let line = build_found_line(file_count, dir_count, rule.from.as_str());
        self.logger.log(line.as_str());
        Ok(file_count + dir_count)
    }

    /// Applies [`Renamer::count_matches`] to each rule in list order. The
    /// first failure aborts the remaining rules: rules before it keep their
    /// fresh counts, the failing rule and all later ones are left untouched.
    pub fn count_all_matches(&mut self, rules: &mut Vec<Rule>) -> (r: Result<(), RenameError>)
        ensures
            final(self).fs == old(self).fs,
            final(rules)@.len() == old(rules)@.len(),
            r is Ok ==> ({
                &&& forall|j: int|
                    0 <= j < old(rules)@.len() ==> pattern_ok((#[trigger] old(rules)@[j]).from@)
                &&& forall|j: int|
                    0 <= j < old(rules)@.len() ==> counts_written(
                        #[trigger] final(rules)@[j],
                        old(rules)@[j],
                        old(self).fs.entries(),
                    )
                &&& final(self).logger.lines() == old(self).logger.lines() + count_lines_of(
                    old(rules)@,
                    old(self).fs.entries(),
                )
            }),
            r matches Err(e) ==> (exists|k: int|
                {
                    &&& 0 <= k < old(rules)@.len()
                    &&& forall|j: int| 0 <= j < k ==> pattern_ok((#[trigger] old(rules)@[j]).from@)
                    &&& forall|j: int|
                        0 <= j < k ==> counts_written(
                            #[trigger] final(rules)@[j],
                            old(rules)@[j],
                            old(self).fs.entries(),
                        )
                    &&& forall|j: int|
                        k <= j < old(rules)@.len() ==> #[trigger] final(rules)@[j] == old(
                            rules,
                        )@[j]
                    &&& (e is Pattern <==> !pattern_ok(old(rules)@[k].from@))
                    &&& final(self).logger.lines() == old(self).logger.lines() + count_lines_of(
                        old(rules)@.take(k),
                        old(self).fs.entries(),
                    )
                }),
            old(self).fs.stable() && (forall|j: int|
                0 <= j < old(rules)@.len() ==> pattern_ok((#[trigger] old(rules)@[j]).from@))
                ==> r is Ok,
    {
        let ghost entries = old(self).fs.entries();
        let ghost orig = old(rules)@;
        let mut i: usize = 0;
        proof {
            assert(orig.take(0) =~= Seq::<Rule>::empty());
            assert(old(self).logger.lines() + count_lines_of(orig.take(0), entries)
                =~= old(self).logger.lines());
        }
        while i < rules.len()
            invariant
                i <= orig.len(),
                rules@.len() == orig.len(),
                orig == old(rules)@,
                entries == old(self).fs.entries(),
                self.fs == old(self).fs,
                forall|j: int| i <= j < orig.len() ==> #[trigger] rules@[j] == orig[j],
                forall|j: int| 0 <= j < i ==> pattern_ok((#[trigger] orig[j]).from@),
                forall|j: int|
                    0 <= j < i ==> counts_written(#[trigger] rules@[j], orig[j], entries),
                self.logger.lines() == old(self).logger.lines() + count_lines_of(
                    orig.take(i as int),
                    entries,
                ),
            decreases orig.len() - i,
        {
            let ghost rules_before = rules@;
            let rule_ref = &mut rules[i];
            let res = self.count_matches(rule_ref);
            match res {
                Ok(_) => {
                    proof {
                        lemma_count_lines_push(orig.take(i as int), orig[i as int], entries);
                        assert(orig.take(i as int).push(orig[i as int]) =~= orig.take(i + 1));
                        assert((old(self).logger.lines() + count_lines_of(
                            orig.take(i as int),
                            entries,
                        )).push(count_line_of(orig[i as int], entries)) =~= old(
                            self,
                        ).logger.lines() + count_lines_of(orig.take(i + 1), entries));
                    }
                },
                Err(e) => {
                    proof {
                        assert(rules@ =~= rules_before);
                        assert({
                            &&& 0 <= i < orig.len()
                            &&& forall|j: int|
                                0 <= j < i ==> pattern_ok((#[trigger] orig[j]).from@)
                            &&& forall|j: int|
                                0 <= j < i ==> counts_written(
                                    #[trigger] rules@[j],
                                    orig[j],
                                    entries,
                                )
                            &&& forall|j: int|
                                i <= j < orig.len() ==> #[trigger] rules@[j] == orig[j]
                            &&& self.logger.lines() == old(self).logger.lines() + count_lines_of(
                                orig.take(i as int),
                                entries,
                            )
                        });
                    }
                    return Err(e);
                },
            }
            i += 1;
        }
        proof {
            assert(orig.take(orig.len() as int) =~= orig);
        }
        Ok(())
    }

    /// Executes one rule: logs the `Mapping '<from>' -> '<to>'` line first,
    /// compiles the pattern, queries the filesystem port for the current
    /// matches, and moves each matching entry to the path computed by
    /// capture-group substitution, in traversal order.
    fn execute_rule(&mut self, rule: &Rule) -> (r: Result<(), RenameError>)
        ensures
            final(self).fs.stable() == old(self).fs.stable(),
            final(self).logger.lines() == old(self).logger.lines().push(
                mapping_line(rule.from@, rule.to@),
            ),
            r is Ok ==> pattern_ok(rule.from@) && final(self).fs.moves() == old(self).fs.moves()
                + planned_of(old(self).fs.entries(), rule.from@, rule.to@),
            r matches Err(e) ==> (e is Pattern <==> !pattern_ok(rule.from@)),
            r matches Err(e) && e is Pattern ==> final(self).fs == old(self).fs,
            r matches Err(e) && e is Io ==> (exists|k: int|
                0 <= k <= planned_of(old(self).fs.entries(), rule.from@, rule.to@).len()
                    && final(self).fs.moves() == old(self).fs.moves() + planned_of(
                    old(self).fs.entries(),
                    rule.from@,
                    rule.to@,
                ).take(k)),
            old(self).fs.stable() ==> final(self).fs.entries() == old(self).fs.entries() && (
            pattern_ok(rule.from@) ==> r is Ok),
    {
        let line = build_mapping_line(rule.from.as_str(), rule.to.as_str());
        self.logger.log(line.as_str());
        let ghost entries = old(self).fs.entries();
        let ghost planned = planned_of(entries, rule.from@, rule.to@);
        let compiled = match CompiledPattern::compile(rule.from.as_str()) {
            Ok(c) => c,
            Err(e) => {
                return Err(RenameError::Pattern(e));
            },
        };
        let found = match self.fs.find_matches(&compiled) {
            Ok(v) => v,
            Err(e) => {
                proof {
                    assert(planned.take(0) =~= Seq::<MoveView>::empty());
                    assert(self.fs.moves() =~= old(self).fs.moves() + planned.take(0));
                    assert(0 <= 0 <= planned_of(old(self).fs.entries(), rule.from@, rule.to@).len()
                        && self.fs.moves() == old(self).fs.moves() + planned_of(
                        old(self).fs.entries(),
                        rule.from@,
                        rule.to@,
                    ).take(0));
                }
                return Err(RenameError::Io(e));
            },
        };
        let ghost ms = matching_of(entries, rule.from@);
        let mut j: usize = 0;
        proof {
            assert(planned.take(0) =~= Seq::<MoveView>::empty());
            assert(old(self).fs.moves() + planned.take(0) =~= old(self).fs.moves());
        }
        while j < found.len()
            invariant
                j <= ms.len(),
                found.deep_view() == ms,
                entries == old(self).fs.entries(),
                ms == matching_of(entries, rule.from@),
                planned == planned_of(entries, rule.from@, rule.to@),
                planned.len() == ms.len(),
                pattern_ok(rule.from@),
                compiled@ == rule.from@,
                self.fs.stable() == old(self).fs.stable(),
                self.fs.moves() == old(self).fs.moves() + planned.take(j as int),
                old(self).fs.stable() ==> self.fs.entries() == entries,
                self.logger.lines() == old(self).logger.lines().push(
                    mapping_line(rule.from@, rule.to@),
                ),
            decreases ms.len() - j,
        {
            let entry = &found[j];
            let dest = compiled.replace_first(entry.path.as_str(), rule.to.as_str());
            let res = self.fs.move_file(entry.path.as_str(), dest.as_str());
            match res {
                Ok(_) => {
                    proof {
                        assert(planned[j as int] == MoveView {
                            from: ms[j as int].path,
                            to: replaced_of(rule.from@, ms[j as int].path, rule.to@),
                        });
                        assert(planned.take(j as int).push(planned[j as int]) =~= planned.take(
                            j + 1,
                        ));
                        assert((old(self).fs.moves() + planned.take(j as int)).push(
                            planned[j as int],
                        ) =~= old(self).fs.moves() + planned.take(j + 1));
                    }
                },
                Err(e) => {
                    proof {
                        assert(0 <= (j as int) <= planned_of(
                            old(self).fs.entries(),
                            rule.from@,
                            rule.to@,
                        ).len() && self.fs.moves() == old(self).fs.moves() + planned_of(
                            old(self).fs.entries(),
                            rule.from@,
                            rule.to@,
                        ).take(j as int));
                    }
                    return Err(RenameError::Io(e));
                },
            }
            j += 1;
        }
        proof {
            assert(planned.take(planned.len() as int) =~= planned);
        }
        Ok(())
    }

    /// Executes every rule in list order, re-evaluating matches live for
    /// each rule. The first unrecoverable failure (bad pattern or failed
    /// move) aborts the whole operation; moves already performed remain —
    /// there is no rollback.
    pub fn execute(&mut self, rules: &Vec<Rule>) -> (r: Result<(), RenameError>)
        ensures
            final(self).fs.stable() == old(self).fs.stable(),
            r is Ok ==> ({
                &&& final(self).logger.lines() == old(self).logger.lines() + mapping_lines_of(
                    rules@,
                )
                &&& forall|j: int|
                    0 <= j < rules@.len() ==> pattern_ok((#[trigger] rules@[j]).from@)
            }),
            r matches Err(e) ==> (exists|k: int|
                #![trigger rules@.take(k)]
                {
                    &&& 0 <= k < rules@.len()
                    &&& forall|j: int| 0 <= j < k ==> pattern_ok((#[trigger] rules@[j]).from@)
                    &&& (e is Pattern <==> !pattern_ok(rules@[k].from@))
                    &&& final(self).logger.lines() == old(self).logger.lines()
                        + mapping_lines_of(rules@.take(k + 1))
                    &&& old(self).fs.stable() ==> e is Pattern && final(self).fs.moves() == old(
                        self,
                    ).fs.moves() + batch_moves_of(rules@.take(k), old(self).fs.entries())
                }),
            old(self).fs.stable() ==> ({
                &&& final(self).fs.entries() == old(self).fs.entries()
                &&& (forall|j: int|
                    0 <= j < rules@.len() ==> pattern_ok((#[trigger] rules@[j]).from@)) ==> r
                    is Ok
                &&& r is Ok ==> final(self).fs.moves() == old(self).fs.moves() + batch_moves_of(
                    rules@,
                    old(self).fs.entries(),
                )
            }),
            rules@.len() == 0 ==> r is Ok && *final(self) == *old(self),
    {
        let ghost entries = old(self).fs.entries();
        let mut i: usize = 0;
        proof {
            assert(rules@.take(0) =~= Seq::<Rule>::empty());
            assert(old(self).logger.lines() + mapping_lines_of(rules@.take(0)) =~= old(
                self,
            ).logger.lines());
            assert(old(self).fs.moves() + batch_moves_of(rules@.take(0), entries) =~= old(
                self,
            ).fs.moves());
        }
        while i < rules.len()
            invariant
                i <= rules@.len(),
                entries == old(self).fs.entries(),
                self.fs.stable() == old(self).fs.stable(),
                forall|j: int| 0 <= j < i ==> pattern_ok((#[trigger] rules@[j]).from@),
                self.logger.lines() == old(self).logger.lines() + mapping_lines_of(
                    rules@.take(i as int),
                ),
                old(self).fs.stable() ==> self.fs.entries() == entries && self.fs.moves() == old(
                    self,
                ).fs.moves() + batch_moves_of(rules@.take(i as int), entries),
                i == 0 ==> *self == *old(self),
            decreases rules@.len() - i,
        {
            let ghost fs_before = self.fs;
            let rule = &rules[i];
            let res = self.execute_rule(rule);
            proof {
                lemma_mapping_lines_push(rules@.take(i as int), rules@[i as int]);
                assert(rules@.take(i as int).push(rules@[i as int]) =~= rules@.take(i + 1));
                assert((old(self).logger.lines() + mapping_lines_of(rules@.take(i as int))).push(
                    mapping_line(rules@[i as int].from@, rules@[i as int].to@),
                ) =~= old(self).logger.lines() + mapping_lines_of(rules@.take(i + 1)));
            }
            match res {
                Ok(_) => {
                    proof {
                        if old(self).fs.stable() {
                            lemma_batch_moves_push(rules@.take(i as int), rules@[i as int], entries);
                            assert((old(self).fs.moves() + batch_moves_of(
                                rules@.take(i as int),
                                entries,
                            )) + planned_of(entries, rules@[i as int].from@, rules@[i as int].to@)
                                =~= old(self).fs.moves() + batch_moves_of(
                                rules@.take(i + 1),
                                entries,
                            ));
                        }
                    }
                },
                Err(e) => {
                    proof {
                        if old(self).fs.stable() {
                            assert(e is Pattern);
                            assert(self.fs == fs_before);
                            assert(self.fs.moves() == old(self).fs.moves() + batch_moves_of(
                                rules@.take(i as int),
                                entries,
                            ));
                        }
                        assert({
                            &&& 0 <= (i as int) < rules@.len()
                            &&& forall|j: int|
                                0 <= j < i as int ==> pattern_ok((#[trigger] rules@[j]).from@)
                            &&& (e is Pattern <==> !pattern_ok(rules@[i as int].from@))
                            &&& self.logger.lines() == old(self).logger.lines()
                                + mapping_lines_of(rules@.take(i as int + 1))
                            &&& old(self).fs.stable() ==> e is Pattern && self.fs.moves() == old(
                                self,
                            ).fs.moves() + batch_moves_of(rules@.take(i as int), entries)
                        });
                    }
                    return Err(e);
                },
            }
            i += 1;
        }
        proof {
            assert(rules@.take(rules@.len() as int) =~= rules@);
        }
        Ok(())
    }
}

proof fn lemma_count_lines_push(rules: Seq<Rule>, rule: Rule, entries: Seq<EntryView>)
    ensures
        count_lines_of(rules.push(rule), entries) == count_lines_of(rules, entries).push(
            count_line_of(rule, entries),
        ),
{
    assert(rules.push(rule).drop_last() =~= rules);
    assert(rules.push(rule).last() == rule);
}

proof fn lemma_mapping_lines_push(rules: Seq<Rule>, rule: Rule)
    ensures
        mapping_lines_of(rules.push(rule)) == mapping_lines_of(rules).push(
            mapping_line(rule.from@, rule.to@),
        ),
{
    assert(rules.push(rule).drop_last() =~= rules);
    assert(rules.push(rule).last() == rule);
}

proof fn lemma_batch_moves_push(rules: Seq<Rule>, rule: Rule, entries: Seq<EntryView>)
    ensures
        batch_moves_of(rules.push(rule), entries) == batch_moves_of(rules, entries) + planned_of(
            entries,
            rule.from@,
            rule.to@,
        ),
{
    assert(rules.push(rule).drop_last() =~= rules);
    assert(rules.push(rule).last() == rule);
}

} // verus!
