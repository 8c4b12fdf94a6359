//! Fixed rules: edits of a file name that need no expressions.
use crate::directory::{lemma_flagged_is_filter, lemma_flagged_views, retain_flagged, Batch};
use crate::error::{Error, ErrorView};
use crate::expressions::{replace_selected, replaced};
use crate::match_rule::MatchRule;
use crate::paths::{file_name_of, with_file_name};
use crate::pattern::{inserted_at_match, pattern_replaced, Pattern};
use crate::rename_tree::{views_of, Dir, DirView, File, FileView};
use crate::sorting::sorted_from;
use crate::supporting_objects::{InsertionType, Position, Selection, SortDirection};
use crate::text::{decimal, insert_after, insert_at_offset, insert_before};
use vstd::prelude::*;
use vstd::utf8::*;

verus! {

/// A change to the files of one directory.
#[derive(PartialEq, Eq, Debug, Hash)]
pub enum DirRule {
    /// Orders the files by destination.
    Sort(SortDirection),
    /// Drops the files whose destination the rule holds of.
    Remove(MatchRule),
    /// Drops the files whose destination the rule does not hold of.
    IncludeOnly(MatchRule),
    /// Sets the local index to this number.
    OffsetLocalIndex(usize),
}

/// A change to the name of one file.
#[derive(PartialEq, Eq, Debug, Hash)]
pub enum FileRule {
    /// Replaces matches of a pattern in the name: which matches, the
    /// pattern, their replacement.
    RegexReplace(Selection, Pattern, String),
    /// Replaces occurrences of a text in the name: which occurrences, the
    /// text to find, its replacement.
    Replace(Selection, String, String),
    /// Inserts something into the name.
    Insert(Position, InsertionType),
    /// Sets the name to this text.
    SetName(String),
    /// Reports the file as skipped where the rule holds of its destination.
    SkipIf(MatchRule),
}

impl Clone for DirRule {
    fn clone(&self) -> (r: Self)
        ensures
            r == *self,
    {
        match self {
            DirRule::Sort(direction) => DirRule::Sort(*direction),
            DirRule::Remove(rule) => DirRule::Remove(rule.duplicate()),
            DirRule::IncludeOnly(rule) => DirRule::IncludeOnly(rule.duplicate()),
            DirRule::OffsetLocalIndex(offset) => DirRule::OffsetLocalIndex(*offset),
        }
    }
}

impl Clone for FileRule {
    fn clone(&self) -> (r: Self)
        ensures
            r == *self,
    {
        match self {
            FileRule::RegexReplace(selection, find, replace) => FileRule::RegexReplace(
                *selection,
                find.clone(),
                replace.clone(),
            ),
            FileRule::Replace(selection, find, replace) => FileRule::Replace(
                *selection,
                find.clone(),
                replace.clone(),
            ),
            FileRule::Insert(position, insertion) => FileRule::Insert(
                position.clone(),
                insertion.clone(),
            ),
            FileRule::SetName(name) => FileRule::SetName(name.clone()),
            FileRule::SkipIf(rule) => FileRule::SkipIf(rule.duplicate()),
        }
    }
}

/// A copy of a list of directory rules.
pub fn duplicate_dir_rules(rules: &[DirRule]) -> (r: Vec<DirRule>)
    ensures
        r@ == rules@,
{
    let mut out: Vec<DirRule> = Vec::new();
    let mut i: usize = 0;
    while i < rules.len()
        invariant
            i <= rules.len(),
            out@ == rules@.take(i as int),
        decreases rules.len() - i,
    {
        out.push(rules[i].clone());
        i += 1;
        assert(rules@.take(i as int) =~= rules@.take(i - 1).push(rules@[i - 1]));
    }
    assert(rules@.take(i as int) =~= rules@);
    out
}

/// A copy of a list of file rules.
pub fn duplicate_file_rules(rules: &[FileRule]) -> (r: Vec<FileRule>)
    ensures
        r@ == rules@,
{
    let mut out: Vec<FileRule> = Vec::new();
    let mut i: usize = 0;
    while i < rules.len()
        invariant
            i <= rules.len(),
            out@ == rules@.take(i as int),
        decreases rules.len() - i,
    {
        out.push(rules[i].clone());
        i += 1;
        assert(rules@.take(i as int) =~= rules@.take(i - 1).push(rules@[i - 1]));
    }
    assert(rules@.take(i as int) =~= rules@);
    out
}

/// An engine for fixed rules: two counters and the rules that apply to
/// every directory and to every file.
#[derive(Debug)]
pub struct RuleEngine {
    pub(crate) global_index: usize,
    pub(crate) local_index: usize,
    pub(crate) dir_rules: Vec<DirRule>,
    pub(crate) file_rules: Vec<FileRule>,
}

/// The state of a [`RuleEngine`].
pub struct RuleEngineView {
    pub global_index: nat,
    pub local_index: nat,
    pub dir_rules: Seq<DirRule>,
    pub file_rules: Seq<FileRule>,
}

impl View for RuleEngine {
    type V = RuleEngineView;

    open(crate) spec fn view(&self) -> RuleEngineView {
        RuleEngineView {
            global_index: self.global_index as nat,
            local_index: self.local_index as nat,
            dir_rules: self.dir_rules@,
            file_rules: self.file_rules@,
        }
    }
}

/// What a fixed rule makes of a destination.
pub struct Ruled {
    /// The destination after the rule.
    pub destination: Seq<char>,
    /// Whether the rule was applied (a skip reports `false`), or the
    /// failure that it ended in.
    pub applied: Result<bool, ErrorView>,
}

/// The text that an insertion rule inserts. The engine for fixed rules
/// keeps no variables, so an insertion of a variable fails: the variable
/// is not defined.
pub open spec fn insertion_text(
    insertion: InsertionType,
    global_index: nat,
    local_index: nat,
) -> Result<Seq<char>, ErrorView> {
    match insertion {
        InsertionType::LocalIndex => Ok(decimal(local_index)),
        InsertionType::OverallIndex => Ok(decimal(global_index)),
        InsertionType::Static(s) => Ok(s@),
        InsertionType::Variable(name) => Err(ErrorView::VariableNotDefined(name@)),
    }
}

/// A file name with a text inserted by a fixed rule. An index beyond the
/// end of the name is a failure; a marker that does not occur, or an
/// index inside a character, leaves the name as it is.
pub open spec fn name_with_insertion(
    position: Position,
    name: Seq<char>,
    text: Seq<char>,
) -> Result<Seq<char>, ErrorView> {
    match position {
        Position::Index(i) => if i > encode_utf8(name).len() {
            Err(ErrorView::InsertIndexTooLarge)
        } else {
            match insert_at_offset(name, i as int, text) {
                Some(s) => Ok(s),
                None => Ok(name),
            }
        },
        Position::After(marker) => match insert_after(name, marker@, text) {
            Some(s) => Ok(s),
            None => Ok(name),
        },
        Position::AfterRegex(pattern) => match inserted_at_match(pattern@, name, text, true) {
            Some(s) => Ok(s),
            None => Ok(name),
        },
        Position::Before(marker) => match insert_before(name, marker@, text) {
            Some(s) => Ok(s),
            None => Ok(name),
        },
        Position::BeforeRegex(pattern) => match inserted_at_match(pattern@, name, text, false) {
            Some(s) => Ok(s),
            None => Ok(name),
        },
        Position::Start => Ok(text + name),
        Position::End => Ok(name + text),
    }
}

impl FileRule {
    /// What the rule makes of a destination, given the two counters. The
    /// rules that edit the file name fail where the destination has none.
    pub open spec fn effect(self, global_index: nat, local_index: nat, path: Seq<char>) -> Ruled {
        match self {
            FileRule::RegexReplace(selection, find, replace) => match file_name_of(path) {
                Some(name) => Ruled {
                    destination: with_file_name(
                        path,
                        pattern_replaced(selection, find@, name, replace@),
                    ),
                    applied: Ok(true),
                },
                None => Ruled {
                    destination: path,
                    applied: Err(ErrorView::CannotIdentifyFileName),
                },
            },
            FileRule::Replace(selection, find, replace) => match file_name_of(path) {
                Some(name) => Ruled {
                    destination: with_file_name(path, replaced(selection, name, find@, replace@)),
                    applied: Ok(true),
                },
                None => Ruled {
                    destination: path,
                    applied: Err(ErrorView::CannotIdentifyFileName),
                },
            },
            FileRule::Insert(position, insertion) => match insertion_text(
                insertion,
                global_index,
                local_index,
            ) {
                Err(e) => Ruled { destination: path, applied: Err(e) },
                Ok(text) => match file_name_of(path) {
                    None => Ruled {
                        destination: path,
                        applied: Err(ErrorView::CannotIdentifyFileName),
                    },
                    Some(name) => match name_with_insertion(position, name, text) {
                        Err(e) => Ruled { destination: path, applied: Err(e) },
                        Ok(new_name) => Ruled {
                            destination: with_file_name(path, new_name),
                            applied: Ok(true),
                        },
                    },
                },
            },
            FileRule::SetName(name) => Ruled {
                destination: with_file_name(path, name@),
                applied: Ok(true),
            },
            FileRule::SkipIf(rule) => Ruled { destination: path, applied: Ok(!rule.holds(path)) },
        }
    }
}

/// What a sequence of rules makes of a destination, each rule working on
/// what the one before it left. The first failure ends the sequence.
pub open spec fn effect_all(
    rules: Seq<FileRule>,
    global_index: nat,
    local_index: nat,
    path: Seq<char>,
) -> Ruled
    decreases rules.len(),
{
    if rules.len() == 0 {
        Ruled { destination: path, applied: Ok(true) }
    } else {
        let before = effect_all(rules.drop_last(), global_index, local_index, path);
        match before.applied {
            Err(_) => before,
            Ok(_) => rules.last().effect(global_index, local_index, before.destination),
        }
    }
}

/// Once the first rules of a sequence have failed, the sequence has
/// failed in the same way.
pub proof fn lemma_rules_failed(
    rules: Seq<FileRule>,
    global_index: nat,
    local_index: nat,
    path: Seq<char>,
    n: int,
)
    requires
        0 <= n <= rules.len(),
        effect_all(rules.take(n), global_index, local_index, path).applied is Err,
    ensures
        effect_all(rules, global_index, local_index, path) == effect_all(
            rules.take(n),
            global_index,
            local_index,
            path,
        ),
    decreases rules.len() - n,
{
    if n < rules.len() {
        assert(rules.take(n + 1).drop_last() =~= rules.take(n));
        lemma_rules_failed(rules, global_index, local_index, path, n + 1);
    } else {
        assert(rules.take(n) =~= rules);
    }
}

/// What an executable result stands for.
pub open spec fn applied_of(r: Result<bool, Error>) -> Result<bool, ErrorView> {
    match r {
        Ok(b) => Ok(b),
        Err(e) => Err(e@),
    }
}

/// Inserts a text into a file name as a fixed rule does.
pub fn insert_into_name(position: &Position, name: String, text: &str) -> (r: Result<String, Error>)
    ensures
        match r {
            Ok(s) => name_with_insertion(*position, name@, text@) == Ok::<Seq<char>, ErrorView>(
                s@,
            ),
            Err(e) => name_with_insertion(*position, name@, text@) == Err::<
                Seq<char>,
                ErrorView,
            >(e@),
        },
{
    match position {
        Position::Index(i) => {
            if *i > name.as_str().as_bytes().len() {
                return Err(Error::InsertIndexTooLarge);
            }
            match crate::text::insert_at(name.as_str(), *i, text) {
                Some(s) => Ok(s),
                None => Ok(name),
            }
        },
        Position::After(marker) => match crate::text::insert_after_marker(
            name.as_str(),
            marker.as_str(),
            text,
        ) {
            Some(s) => Ok(s),
            None => Ok(name),
        },
        Position::AfterRegex(pattern) => match pattern.insert(name.as_str(), text, true) {
            Some(s) => Ok(s),
            None => Ok(name),
        },
        Position::BeforeRegex(pattern) => match pattern.insert(name.as_str(), text, false) {
            Some(s) => Ok(s),
            None => Ok(name),
        },
        Position::Before(marker) => match crate::text::insert_before_marker(
            name.as_str(),
            marker.as_str(),
            text,
        ) {
            Some(s) => Ok(s),
            None => Ok(name),
        },
        Position::Start => Ok(crate::text::concat(text, name.as_str())),
        Position::End => Ok(crate::text::concat(name.as_str(), text)),
    }
}

impl RuleEngine {
    /// An engine at the start of a run, with the rules that apply to every
    /// directory and to every file.
    pub fn new(dir_rules: Vec<DirRule>, file_rules: Vec<FileRule>) -> (r: Self)
        ensures
            r@ == (RuleEngineView {
                global_index: 0,
                local_index: 0,
                dir_rules: dir_rules@,
                file_rules: file_rules@,
            }),
    {
        RuleEngine { global_index: 0, local_index: 0, dir_rules, file_rules }
    }

    /// Replaces the selected occurrences of `find` in `input`.
    pub fn replace(input: String, selection: Selection, find: &String, replace: &String) -> (r:
        String)
        ensures
            r@ == replaced(selection, input@, find@, replace@),
    {
        replace_selected(selection, input.as_str(), find.as_str(), replace.as_str())
    }

    /// Replaces the selected matches of `find` in `input`.
    pub fn regex_replace(input: String, selection: Selection, find: &Pattern, replace: &str) -> (r:
        String)
        ensures
            r@ == pattern_replaced(selection, find@, input@, replace@),
    {
        find.replace(selection, input, replace)
    }

    /// The text that an insertion rule inserts.
    pub fn insertion(&self, insertion: &InsertionType) -> (r: Result<String, Error>)
        ensures
            match r {
                Ok(s) => insertion_text(*insertion, self@.global_index, self@.local_index) == Ok::<
                    Seq<char>,
                    ErrorView,
                >(s@),
                Err(e) => insertion_text(*insertion, self@.global_index, self@.local_index)
                    == Err::<Seq<char>, ErrorView>(e@),
            },
    {
        match insertion {
            InsertionType::LocalIndex => Ok(crate::text::decimal_string(self.local_index)),
            InsertionType::OverallIndex => Ok(crate::text::decimal_string(self.global_index)),
            InsertionType::Static(s) => Ok(s.clone()),
            InsertionType::Variable(name) => Err(Error::VariableNotDefined(name.clone())),
        }
    }

    /// Applies one rule to a destination.
    pub fn execute_file_rule(&self, rule: &FileRule, input: &mut String) -> (r: Result<bool, Error>)
        ensures
            applied_of(r) == rule.effect(
                self@.global_index,
                self@.local_index,
                old(input)@,
            ).applied,
            final(input)@ == rule.effect(
                self@.global_index,
                self@.local_index,
                old(input)@,
            ).destination,
    {
        match rule {
            FileRule::RegexReplace(selection, find, replace) => {
                let name = match crate::paths::file_name(input.as_str()) {
                    Some(name) => name,
                    None => {
                        return Err(Error::CannotIdentifyFileName);
                    },
                };
                let new_name = RuleEngine::regex_replace(name, *selection, find, replace.as_str());
                *input = crate::paths::set_file_name(input.as_str(), new_name.as_str());
                Ok(true)
            },
            FileRule::Replace(selection, find, replace) => {
                let name = match crate::paths::file_name(input.as_str()) {
                    Some(name) => name,
                    None => {
                        return Err(Error::CannotIdentifyFileName);
                    },
                };
                let new_name = RuleEngine::replace(name, *selection, find, replace);
                *input = crate::paths::set_file_name(input.as_str(), new_name.as_str());
                Ok(true)
            },
            FileRule::Insert(position, insertion) => {
                let content = self.insertion(insertion)?;
                let name = match crate::paths::file_name(input.as_str()) {
                    Some(name) => name,
                    None => {
                        return Err(Error::CannotIdentifyFileName);
                    },
                };
                let new_name = insert_into_name(position, name, content.as_str())?;
                *input = crate::paths::set_file_name(input.as_str(), new_name.as_str());
                Ok(true)
            },
            FileRule::SetName(name) => {
                *input = crate::paths::set_file_name(input.as_str(), name.as_str());
                Ok(true)
            },
            FileRule::SkipIf(rule) => Ok(!rule.resolve(input)),
        }
    }

    /// Applies rules in order to a destination.
    pub fn execute_file_rules(&self, rules: &Vec<FileRule>, input: &mut String) -> (r: Result<
        bool,
        Error,
    >)
        ensures
            applied_of(r) == effect_all(
                rules@,
                self@.global_index,
                self@.local_index,
                old(input)@,
            ).applied,
            final(input)@ == effect_all(
                rules@,
                self@.global_index,
                self@.local_index,
                old(input)@,
            ).destination,
    {
        let ghost g = self@.global_index;
        let ghost l = self@.local_index;
        let mut last = true;
        let mut i: usize = 0;
        assert(rules@.take(0) =~= Seq::empty());
        while i < rules.len()
            invariant
                i <= rules.len(),
                g == self@.global_index,
                l == self@.local_index,
                effect_all(rules@.take(i as int), g, l, old(input)@) == (Ruled {
                    destination: input@,
                    applied: Ok(last),
                }),
            decreases rules.len() - i,
        {
            proof {
                assert(rules@.take(i + 1).drop_last() =~= rules@.take(i as int));
                assert(rules@.take(i + 1).last() == rules@[i as int]);
            }
            match self.execute_file_rule(&rules[i], input) {
                Err(e) => {
                    proof {
                        lemma_rules_failed(rules@, g, l, old(input)@, i + 1);
                    }
                    return Err(e);
                },
                Ok(applied) => {
                    last = applied;
                },
            }
            i += 1;
        }
        assert(rules@.take(i as int) =~= rules@);
        Ok(last)
    }
}

/// Whether a directory rule keeps a file: `keep_matching` says whether
/// the files whose destination the rule holds of stay or go.
pub open spec fn keeps_path(rule: MatchRule, keep_matching: bool, f: FileView) -> bool {
    rule.holds(f.destination) == keep_matching
}

/// The files that a filter by destination keeps, in their order.
pub open spec fn kept_by_path(files: Seq<FileView>, rule: MatchRule, keep_matching: bool) -> Seq<
    FileView,
> {
    files.filter(|f: FileView| keeps_path(rule, keep_matching, f))
}

impl DirRule {
    /// Whether the rule can take a batch from `before` to `after`. A sort
    /// leaves the order of files with tied destinations open; everything
    /// else is decided by the batch.
    pub open spec fn effect(self, before: Batch, after: Batch) -> bool {
        match self {
            DirRule::Sort(direction) => after.local_index == before.local_index && sorted_from(
                before.files,
                direction,
                after.files,
            ),
            DirRule::Remove(rule) => after.local_index == before.local_index && after.files
                == kept_by_path(before.files, rule, false),
            DirRule::IncludeOnly(rule) => after.local_index == before.local_index && after.files
                == kept_by_path(before.files, rule, true),
            DirRule::OffsetLocalIndex(offset) => after.local_index == offset && after.files
                == before.files,
        }
    }
}

/// Whether a sequence of directory rules, each working on what the one
/// before it left, can take a batch from `start` to `end`.
pub open spec fn rule_chain(rules: Seq<DirRule>, start: Batch, end: Batch) -> bool
    decreases rules.len(),
{
    if rules.len() == 0 {
        end == start
    } else {
        exists|mid: Batch|
            rule_chain(rules.drop_last(), start, mid) && #[trigger] rules.last().effect(mid, end)
    }
}

/// Two sequences of directory rules that follow each other make one.
pub proof fn lemma_rule_chain_joined(
    first: Seq<DirRule>,
    second: Seq<DirRule>,
    start: Batch,
    mid: Batch,
    end: Batch,
)
    requires
        rule_chain(first, start, mid),
        rule_chain(second, mid, end),
    ensures
        rule_chain(first + second, start, end),
    decreases second.len(),
{
    if second.len() == 0 {
        assert(first + second =~= first);
    } else {
        let whole = first + second;
        assert(whole.drop_last() =~= first + second.drop_last());
        assert(whole.last() == second.last());
        let m = choose|m: Batch|
            rule_chain(second.drop_last(), mid, m) && #[trigger] second.last().effect(m, end);
        lemma_rule_chain_joined(first, second.drop_last(), start, mid, m);
        assert(rule_chain(whole.drop_last(), start, m) && whole.last().effect(m, end));
    }
}

/// No rule of the sequence sets the local index so high that it would
/// overflow while `count` files are processed.
pub open spec fn rule_offsets_fit(rules: Seq<DirRule>, count: nat) -> bool {
    forall|i: int|
        0 <= i < rules.len() ==> (#[trigger] rules[i] matches DirRule::OffsetLocalIndex(offset)
            ==> offset + count <= usize::MAX)
}

/// The offsets of two lists fit where those of each list fit.
pub proof fn lemma_rule_offsets_fit_joined(first: Seq<DirRule>, second: Seq<DirRule>, count: nat)
    ensures
        rule_offsets_fit(first + second, count) == (rule_offsets_fit(first, count)
            && rule_offsets_fit(second, count)),
{
    let all = first + second;
    if rule_offsets_fit(all, count) {
        assert forall|i: int| 0 <= i < first.len() implies (
        #[trigger] first[i] matches DirRule::OffsetLocalIndex(offset) ==> offset + count
            <= usize::MAX) by {
            assert(all[i] == first[i]);
        }
        assert forall|i: int| 0 <= i < second.len() implies (
        #[trigger] second[i] matches DirRule::OffsetLocalIndex(offset) ==> offset + count
            <= usize::MAX) by {
            assert(all[first.len() + i] == second[i]);
        }
    }
    if rule_offsets_fit(first, count) && rule_offsets_fit(second, count) {
        assert forall|i: int| 0 <= i < all.len() implies (
        #[trigger] all[i] matches DirRule::OffsetLocalIndex(offset) ==> offset + count
            <= usize::MAX) by {
            if i < first.len() {
                assert(all[i] == first[i]);
            } else {
                assert(all[i] == second[i - first.len()]);
            }
        }
    }
}

/// Whether no rule of the list sets the local index so high that it would
/// overflow while `count` files are processed.
pub fn rule_offsets_fit_in(rules: &Vec<DirRule>, count: usize) -> (r: bool)
    ensures
        r == rule_offsets_fit(rules@, count as nat),
{
    let mut i: usize = 0;
    while i < rules.len()
        invariant
            i <= rules.len(),
            forall|j: int|
                0 <= j < i ==> (#[trigger] rules@[j] matches DirRule::OffsetLocalIndex(offset)
                    ==> offset + count <= usize::MAX),
        decreases rules.len() - i,
    {
        match &rules[i] {
            DirRule::OffsetLocalIndex(offset) => {
                if *offset > usize::MAX - count {
                    return false;
                }
            },
            _ => {},
        }
        i += 1;
    }
    true
}

/// Keeps the files whose destination the rule holds of, or those whose
/// destination it does not hold of.
pub fn filter_by_path(input: &mut Vec<File>, rule: &MatchRule, keep_matching: bool)
    ensures
        views_of(final(input)@) == kept_by_path(views_of(old(input)@), *rule, keep_matching),
        final(input)@.len() <= old(input)@.len(),
{
    let mut keep: Vec<bool> = Vec::new();
    let mut i: usize = 0;
    while i < input.len()
        invariant
            i <= input.len(),
            keep@.len() == i,
            forall|j: int|
                0 <= j < i ==> keep@[j] == keeps_path(*rule, keep_matching, views_of(input@)[j]),
        decreases input.len() - i,
    {
        keep.push(rule.resolve(&input[i].destination) == keep_matching);
        i += 1;
    }
    proof {
        lemma_flagged_is_filter(
            views_of(input@),
            keep@,
            |f: FileView| keeps_path(*rule, keep_matching, f),
        );
        lemma_flagged_views(input@, keep@);
    }
    retain_flagged(input, &keep);
}

/// Applies one directory rule to the files of a directory and to the
/// local index.
pub fn apply_dir_rule(rule: &DirRule, local_index: &mut usize, input: &mut Vec<File>)
    ensures
        rule.effect(
            Batch { files: views_of(old(input)@), local_index: *old(local_index) as nat },
            Batch { files: views_of(final(input)@), local_index: *final(local_index) as nat },
        ),
        final(input)@.len() <= old(input)@.len(),
        rule matches DirRule::OffsetLocalIndex(offset) ==> *final(local_index) == offset,
        !(rule matches DirRule::OffsetLocalIndex(_)) ==> *final(local_index) == *old(local_index),
{
    match rule {
        DirRule::Sort(direction) => crate::sorting::sort(input, *direction),
        DirRule::Remove(rule) => filter_by_path(input, rule, false),
        DirRule::IncludeOnly(rule) => filter_by_path(input, rule, true),
        DirRule::OffsetLocalIndex(offset) => {
            *local_index = *offset;
        },
    }
}

/// Applies directory rules in order.
pub fn apply_dir_rules(rules: &Vec<DirRule>, local_index: &mut usize, input: &mut Vec<File>)
    requires
        rule_offsets_fit(rules@, old(input)@.len()),
        *old(local_index) + old(input)@.len() <= usize::MAX,
    ensures
        rule_chain(
            rules@,
            Batch { files: views_of(old(input)@), local_index: *old(local_index) as nat },
            Batch { files: views_of(final(input)@), local_index: *final(local_index) as nat },
        ),
        final(input)@.len() <= old(input)@.len(),
        *final(local_index) + final(input)@.len() <= usize::MAX,
{
    let ghost start = Batch { files: views_of(input@), local_index: *local_index as nat };
    let mut i: usize = 0;
    assert(rules@.take(0) =~= Seq::empty());
    while i < rules.len()
        invariant
            i <= rules.len(),
            rule_offsets_fit(rules@, old(input)@.len()),
            rule_chain(
                rules@.take(i as int),
                start,
                Batch { files: views_of(input@), local_index: *local_index as nat },
            ),
            input@.len() <= old(input)@.len(),
            *local_index + input@.len() <= usize::MAX,
        decreases rules.len() - i,
    {
        let ghost mid = Batch { files: views_of(input@), local_index: *local_index as nat };
        apply_dir_rule(&rules[i], local_index, input);
        proof {
            let end = Batch { files: views_of(input@), local_index: *local_index as nat };
            assert(rules@.take(i + 1).drop_last() =~= rules@.take(i as int));
            assert(rules@.take(i + 1).last() == rules@[i as int]);
            assert(rule_chain(rules@.take(i as int), start, mid) && rules@[i as int].effect(
                mid,
                end,
            ));
        }
        i += 1;
    }
    assert(rules@.take(i as int) =~= rules@);
}

/// How far a fixed-rule run over a batch has come.
pub struct RuleProgress {
    /// The state of the engine.
    pub engine: RuleEngineView,
    /// The files of the batch, those already processed with their new
    /// destinations.
    pub files: Seq<FileView>,
    /// The failure that stopped the run, if one did.
    pub failure: Option<ErrorView>,
}

impl RuleEngineView {
    /// What the engine makes of a file's destination: the rules of the
    /// engine run first, then the file's own.
    pub open spec fn ruled(self, file: FileView) -> Ruled {
        let first = effect_all(
            self.file_rules,
            self.global_index,
            self.local_index,
            file.destination,
        );
        match first.applied {
            Err(_) => first,
            Ok(_) => effect_all(file.rules, self.global_index, self.local_index, first.destination),
        }
    }

    /// The state after a file has been completed.
    pub open spec fn file_done(self) -> RuleEngineView {
        RuleEngineView {
            global_index: self.global_index + 1,
            local_index: self.local_index + 1,
            ..self
        }
    }

    /// Processing the first `n` files of a batch in order, until one
    /// fails. A file that fails keeps the destination that the failing
    /// rule left, and the counters stay as they were before it.
    pub open spec fn run_batch(self, files: Seq<FileView>, n: nat) -> RuleProgress
        decreases n,
    {
        if n == 0 {
            RuleProgress { engine: self, files, failure: None }
        } else {
            let before = self.run_batch(files, (n - 1) as nat);
            if before.failure is Some || n > files.len() {
                before
            } else {
                let at = n - 1;
                let one = before.engine.ruled(before.files[at]);
                let file = FileView { destination: one.destination, ..before.files[at] };
                match one.applied {
                    Err(e) => RuleProgress {
                        engine: before.engine,
                        files: before.files.update(at, file),
                        failure: Some(e),
                    },
                    Ok(_) => RuleProgress {
                        engine: before.engine.file_done(),
                        files: before.files.update(at, file),
                        failure: None,
                    },
                }
            }
        }
    }

    /// Whether processing a directory can lead from this state to the
    /// given progress. The local index starts at zero; the directory rules
    /// of the engine and then those of the directory work on the
    /// directory's files; the files they leave are processed in order.
    pub open spec fn processes(self, dir: DirView, progress: RuleProgress) -> bool {
        exists|batch: Batch|
            {
                &&& #[trigger] rule_chain(
                    self.dir_rules + dir.dir_rules,
                    Batch { files: dir.contents, local_index: 0 },
                    batch,
                )
                &&& progress == (RuleEngineView {
                    local_index: batch.local_index,
                    ..self
                }).run_batch(batch.files, batch.files.len())
            }
    }

    /// Whether `after` can follow this state when at most `count` files
    /// were processed: the rules are the same and the global index has
    /// grown by no more than `count`.
    pub open spec fn keeps_shape(self, after: RuleEngineView, count: nat) -> bool {
        &&& after.dir_rules == self.dir_rules
        &&& after.file_rules == self.file_rules
        &&& self.global_index <= after.global_index <= self.global_index + count
    }

    /// Whether the counters have room for the files of a directory.
    pub open spec fn can_take(self, dir: DirView) -> bool {
        &&& self.global_index + dir.contents.len() <= usize::MAX
        &&& rule_offsets_fit(self.dir_rules + dir.dir_rules, dir.contents.len())
    }
}

/// A failed run over the first files of a batch is the run over the batch.
pub proof fn lemma_batch_failed(engine: RuleEngineView, files: Seq<FileView>, n: nat, m: nat)
    requires
        n <= m,
        engine.run_batch(files, n).failure is Some,
    ensures
        engine.run_batch(files, m) == engine.run_batch(files, n),
    decreases m - n,
{
    if n < m {
        lemma_batch_failed(engine, files, n, (m - 1) as nat);
    }
}

/// A run over a batch keeps the number of its files and the rules of the
/// engine, and moves the counters on by the number of files completed.
pub proof fn lemma_batch_shape(engine: RuleEngineView, files: Seq<FileView>, n: nat)
    requires
        n <= files.len(),
    ensures
        engine.run_batch(files, n).files.len() == files.len(),
        engine.run_batch(files, n).engine.file_rules == engine.file_rules,
        engine.run_batch(files, n).engine.dir_rules == engine.dir_rules,
        engine.run_batch(files, n).failure is None ==> engine.run_batch(
            files,
            n,
        ).engine.global_index == engine.global_index + n && engine.run_batch(
            files,
            n,
        ).engine.local_index == engine.local_index + n,
        forall|j: int|
            n <= j < files.len() ==> (#[trigger] engine.run_batch(files, n).files[j]) == files[j],
    decreases n,
{
    if n > 0 {
        lemma_batch_shape(engine, files, (n - 1) as nat);
    }
}

impl RuleEngine {
    /// Applies one directory rule to the files of a directory.
    pub fn execute_dir_rule(&mut self, rule: &DirRule, input: &mut Vec<File>)
        ensures
            rule.effect(
                Batch { files: views_of(old(input)@), local_index: old(self)@.local_index },
                Batch { files: views_of(final(input)@), local_index: final(self)@.local_index },
            ),
            final(self)@ == (RuleEngineView {
                local_index: final(self)@.local_index,
                ..old(self)@
            }),
    {
        apply_dir_rule(rule, &mut self.local_index, input);
    }

    /// Orders the files by destination.
    pub fn sort(direction: SortDirection, input: &mut Vec<File>)
        ensures
            sorted_from(views_of(old(input)@), direction, views_of(final(input)@)),
    {
        crate::sorting::sort(input, direction);
    }

    /// Applies the rules of the engine and then the file's own to the
    /// file, and counts it as completed.
    pub fn run_file(&mut self, file: &mut File) -> (r: Result<(), Error>)
        requires
            old(self)@.global_index < usize::MAX,
            old(self)@.local_index < usize::MAX,
        ensures
            final(file)@ == (FileView {
                destination: old(self)@.ruled(old(file)@).destination,
                ..old(file)@
            }),
            match r {
                Ok(_) => old(self)@.ruled(old(file)@).applied is Ok && final(self)@ == old(
                    self,
                )@.file_done(),
                Err(e) => old(self)@.ruled(old(file)@).applied == Err::<bool, ErrorView>(e@)
                    && final(self)@ == old(self)@,
            },
    {
        if let Err(e) = self.execute_file_rules(&self.file_rules, &mut file.destination) {
            return Err(e);
        }
        if let Err(e) = self.execute_file_rules(&file.rules, &mut file.destination) {
            return Err(e);
        }
        self.global_index += 1;
        self.local_index += 1;
        Ok(())
    }

    /// Processes one file on its own: the local index starts at zero.
    pub fn process_file(&mut self, file: &mut File) -> (r: Result<(), Error>)
        requires
            old(self)@.global_index < usize::MAX,
        ensures
            final(file)@ == (FileView {
                destination: old(self)@.restarted().ruled(old(file)@).destination,
                ..old(file)@
            }),
            match r {
                Ok(_) => old(self)@.restarted().ruled(old(file)@).applied is Ok && final(self)@
                    == old(self)@.restarted().file_done(),
                Err(e) => old(self)@.restarted().ruled(old(file)@).applied == Err::<
                    bool,
                    ErrorView,
                >(e@) && final(self)@ == old(self)@.restarted(),
            },
            old(self)@.keeps_shape(final(self)@, 1),
    {
        self.local_index = 0;
        self.run_file(file)
    }

    /// Whether the counters have room for the files of a directory.
    pub fn can_take(&self, dir: &Dir) -> (r: bool)
        ensures
            r == self@.can_take(dir@),
    {
        let count = dir.contents.len();
        proof {
            lemma_rule_offsets_fit_joined(self@.dir_rules, dir@.dir_rules, count as nat);
            assert(views_of(dir.contents@).len() == count);
        }
        count <= usize::MAX - self.global_index && rule_offsets_fit_in(&self.dir_rules, count)
            && rule_offsets_fit_in(&dir.dir_rules, count)
    }

    /// Processes the files of a directory: the directory rules work on
    /// the batch, then each file that is left is processed. Returns the
    /// files with their new destinations.
    pub fn process_dir(&mut self, dir: Dir) -> (r: Result<Vec<File>, Error>)
        requires
            old(self)@.can_take(dir@),
        ensures
            exists|progress: RuleProgress| #[trigger]
                old(self)@.processes(dir@, progress) && final(self)@ == progress.engine
                    && match r {
                    Ok(files) => progress.failure is None && views_of(files@) == progress.files,
                    Err(e) => progress.failure == Some(e@),
                },
            old(self)@.keeps_shape(final(self)@, dir@.contents.len()),
            r matches Ok(files) ==> files@.len() <= dir@.contents.len(),
    {
        let ghost start = self@;
        let ghost all = start.dir_rules + dir@.dir_rules;
        let ghost first_batch = Batch { files: dir@.contents, local_index: 0 };
        self.local_index = 0;
        let mut files = dir.contents;
        let own = dir.dir_rules;
        proof {
            assert forall|i: int| 0 <= i < self.dir_rules@.len() implies (
            #[trigger] self.dir_rules@[i] matches DirRule::OffsetLocalIndex(offset) ==> offset
                + files@.len() <= usize::MAX) by {
                assert(all[i] == self.dir_rules@[i]);
            }
        }
        apply_dir_rules(&self.dir_rules, &mut self.local_index, &mut files);
        let ghost mid = Batch { files: views_of(files@), local_index: self@.local_index };
        proof {
            assert forall|i: int| 0 <= i < own@.len() implies (
            #[trigger] own@[i] matches DirRule::OffsetLocalIndex(offset) ==> offset + files@.len()
                <= usize::MAX) by {
                assert(all[start.dir_rules.len() + i] == own@[i]);
            }
        }
        apply_dir_rules(&own, &mut self.local_index, &mut files);
        let ghost batch = Batch { files: views_of(files@), local_index: self@.local_index };
        let ghost begun = self@;
        proof {
            lemma_rule_chain_joined(start.dir_rules, own@, first_batch, mid, batch);
            assert(begun == (RuleEngineView { local_index: batch.local_index, ..start }));
        }
        let r = self.run_batch(&mut files);
        let ghost progress = begun.run_batch(batch.files, batch.files.len());
        assert(start.processes(dir@, progress));
        match r {
            Ok(_) => Ok(files),
            Err(e) => Err(e),
        }
    }

    /// Processes the files of a batch in order, until one fails.
    pub fn run_batch(&mut self, files: &mut Vec<File>) -> (r: Result<(), Error>)
        requires
            old(self)@.global_index + old(files)@.len() <= usize::MAX,
            old(self)@.local_index + old(files)@.len() <= usize::MAX,
        ensures
            (RuleProgress {
                engine: final(self)@,
                files: views_of(final(files)@),
                failure: crate::directory::failure_of(r),
            }) == old(self)@.run_batch(views_of(old(files)@), old(files)@.len()),
            old(self)@.keeps_shape(final(self)@, old(files)@.len()),
            final(files)@.len() == old(files)@.len(),
    {
        let ghost start = self@;
        let ghost batch = views_of(files@);
        let mut i: usize = 0;
        while i < files.len()
            invariant
                i <= files@.len(),
                files@.len() == batch.len(),
                batch == views_of(old(files)@),
                start == old(self)@,
                start.global_index + batch.len() <= usize::MAX,
                start.local_index + batch.len() <= usize::MAX,
                start.run_batch(batch, i as nat) == (RuleProgress {
                    engine: self@,
                    files: views_of(files@),
                    failure: None,
                }),
                start.keeps_shape(self@, i as nat),
            decreases files@.len() - i,
        {
            let ghost before = views_of(files@);
            proof {
                lemma_batch_shape(start, batch, i as nat);
            }
            let r = self.run_file(&mut files[i]);
            proof {
                assert(views_of(files@) =~= before.update(i as int, files@[i as int]@));
            }
            if let Err(e) = r {
                proof {
                    lemma_batch_failed(start, batch, (i + 1) as nat, batch.len());
                }
                return Err(e);
            }
            i += 1;
        }
        Ok(())
    }
}

impl RuleEngineView {
    /// The same state with the local index back at zero.
    pub open spec fn restarted(self) -> RuleEngineView {
        RuleEngineView { local_index: 0, ..self }
    }
}

} // verus!
