//! Configuration and profile store: rule records, wallpaper profiles,
//! extensions, and the in-memory operations on them.
//!
//! Reading and writing the files behind this store is left to the caller;
//! the operations here are the decisions on the in-memory state.

use std::collections::HashMap;
use vstd::prelude::*;
use crate::utils::str_eq;

verus! {

use vstd::string::StringExecFns;

/// Returns the base path of the application's bundled resources.
///
/// The relative form is the library's answer; a bundled build may prepend
/// its own absolute prefix before handing paths to the operating system.
pub fn get_base() -> (r: String)
    ensures
        r@ == "./"@,
{
    String::from_str("./")
}

/// Prepends the base path and a separator to the given path.
pub fn add_base(path: &str) -> (r: String)
    ensures
        r@ == "./"@ + "/"@ + path@,
{
    get_base().concat("/").concat(path)
}

/// Per-profile settings stored beside a wallpaper's content.
#[derive(Clone)]
pub struct WallpaperJson {
    pub author: String,
    pub description: String,
    pub setting: HashMap<String, String>,
    pub force_size: bool,
}

/// One wallpaper profile: its name, its content root path and its settings.
#[derive(Clone)]
pub struct Wallpaper {
    pub name: String,
    pub path: String,
    pub detail: WallpaperJson,
}

/// Pixel adjustments applied to a computed overlay rectangle.
#[derive(Clone, Copy, PartialEq, Eq, Structural, Debug)]
pub struct Shift {
    pub up: i32,
    pub down: i32,
    pub left: i32,
    pub right: i32,
}

/// One declarative rule: which window titles to cover, which to leave
/// alone, and with what wallpaper.  `alpha` is the window opacity in
/// thousandths of fully opaque (0 ..= 1000).
#[derive(Clone)]
pub struct Target {
    pub targets: Vec<String>,
    pub exceptions: Vec<String>,
    pub alpha: u32,
    pub wallpaper: String,
    pub shift: Shift,
}

/// The application's general settings.  `update_interval_ms` is the
/// heartbeat period in milliseconds.
pub struct GeneralSetting {
    pub language: String,
    pub wallpapers: Vec<Target>,
    pub update_interval_ms: u64,
    pub dev: bool,
}

/// Per-extension settings stored beside an extension's code.
#[derive(Clone)]
pub struct ExtensionJson {
    pub description: String,
    pub author: String,
    pub version: String,
    pub setting: HashMap<String, String>,
}

/// One extension: its name, its path and its settings.
#[derive(Clone)]
pub struct Extension {
    pub name: String,
    pub path: String,
    pub detail: ExtensionJson,
}

/// Errors of the in-memory store operations.
#[derive(Clone, Copy, PartialEq, Eq, Structural, Debug)]
pub enum DataError {
    /// No wallpaper profile with the given name or index exists.
    WallpaperNotFound,
    /// A profile with the requested name already exists.
    AlreadyAdded,
    /// The requested template does not exist.
    UnknownTemplate,
}

/// The in-memory state of all persisted data.
pub struct DataManager {
    pub general: GeneralSetting,
    pub wallpapers: Vec<Wallpaper>,
    pub templates: Vec<String>,
    pub extensions: Vec<Extension>,
}

/// Index of the first wallpaper with the given name, if any.
pub open spec fn first_wallpaper_index(ws: Seq<Wallpaper>, name: Seq<char>) -> Option<int>
    decreases ws.len(),
{
    if ws.len() == 0 {
        None
    } else if ws[0].name@ == name {
        Some(0int)
    } else {
        match first_wallpaper_index(ws.skip(1), name) {
            None => None,
            Some(j) => Some(j + 1),
        }
    }
}

/// Some wallpaper in the sequence carries the given name.
pub open spec fn has_wallpaper(ws: Seq<Wallpaper>, name: Seq<char>) -> bool {
    exists|i: int| 0 <= i < ws.len() && ws[i].name@ == name
}

proof fn lemma_first_wallpaper_index(ws: Seq<Wallpaper>, name: Seq<char>)
    ensures
        match first_wallpaper_index(ws, name) {
            Some(i) => 0 <= i < ws.len() && ws[i].name@ == name && (forall|j: int|
                0 <= j < i ==> ws[j].name@ != name),
            None => forall|j: int| 0 <= j < ws.len() ==> ws[j].name@ != name,
        },
    decreases ws.len(),
{
    if ws.len() > 0 {
        lemma_first_wallpaper_index(ws.skip(1), name);
        assert(forall|k: int| 1 <= k < ws.len() ==> ws[k] == ws.skip(1)[k - 1]);
    }
}

/// The sequence `has_wallpaper` exactly when `first_wallpaper_index` finds one.
pub proof fn lemma_has_wallpaper_index(ws: Seq<Wallpaper>, name: Seq<char>)
    ensures
        has_wallpaper(ws, name) <==> first_wallpaper_index(ws, name).is_some(),
{
    lemma_first_wallpaper_index(ws, name);
    if has_wallpaper(ws, name) {
        let i = choose|i: int| 0 <= i < ws.len() && ws[i].name@ == name;
        assert(first_wallpaper_index(ws, name).is_some());
    }
}

/// The ascending list of rule indices whose rule uses the given profile.
pub open spec fn rule_indices_for(rules: Seq<Target>, name: Seq<char>, from: int) -> Seq<int>
    decreases rules.len() - from when 0 <= from <= rules.len()
{
    if from >= rules.len() {
        Seq::empty()
    } else if rules[from].wallpaper@ == name {
        seq![from] + rule_indices_for(rules, name, from + 1)
    } else {
        rule_indices_for(rules, name, from + 1)
    }
}

/// The matching rules of the suffix starting at `from`, in descending
/// index order (the order a back-to-front requeue appends them in).
pub open spec fn matching_rules_rev(rules: Seq<Target>, name: Seq<char>, from: int) -> Seq<Target>
    decreases rules.len() - from when 0 <= from <= rules.len()
{
    if from >= rules.len() {
        Seq::empty()
    } else {
        matching_rules_rev(rules, name, from + 1) + (if rules[from].wallpaper@ == name {
            seq![rules[from]]
        } else {
            Seq::<Target>::empty()
        })
    }
}

/// The rules that do not reference the given profile, in order.
pub open spec fn rules_without(rules: Seq<Target>, name: Seq<char>) -> Seq<Target>
    decreases rules.len(),
{
    if rules.len() == 0 {
        Seq::empty()
    } else {
        (if rules[0].wallpaper@ == name {
            Seq::<Target>::empty()
        } else {
            seq![rules[0]]
        }) + rules_without(rules.skip(1), name)
    }
}

/// Every rule either keeps its place or is requeued: the two parts of a
/// partition by profile name together hold every rule of the suffix.
pub proof fn lemma_rules_partition_len(rules: Seq<Target>, name: Seq<char>, from: int)
    requires
        0 <= from <= rules.len(),
    ensures
        rules_without(rules.skip(from), name).len() + matching_rules_rev(rules, name, from).len()
            == rules.len() - from,
    decreases rules.len() - from,
{
    if from < rules.len() {
        lemma_rules_partition_len(rules, name, from + 1);
        assert(rules.skip(from)[0] == rules[from]);
        assert(rules.skip(from).skip(1) =~= rules.skip(from + 1));
    }
}

/// Some entry of the list equals the given value.
pub open spec fn name_in(list: Seq<String>, v: Seq<char>) -> bool {
    exists|i: int| 0 <= i < list.len() && (#[trigger] list[i])@ == v
}

/// The wanted names that the found list does not hold, in order: a
/// directory listing is complete exactly when this is empty.
pub open spec fn missing_names(found: Seq<String>, wanted: Seq<String>) -> Seq<Seq<char>>
    decreases wanted.len(),
{
    if wanted.len() == 0 {
        Seq::empty()
    } else {
        (if name_in(found, wanted[0]@) {
            Seq::<Seq<char>>::empty()
        } else {
            seq![wanted[0]@]
        }) + missing_names(found, wanted.skip(1))
    }
}

/// The wanted names missing from the found list, in order.
pub fn missing_targets(found: &Vec<String>, wanted: &Vec<String>) -> (r: Vec<String>)
    ensures
        r@.map_values(|s: String| s@) == missing_names(found@, wanted@),
{
    let n = wanted.len();
    let mut out: Vec<String> = Vec::new();
    let mut i: usize = 0;
    proof {
        assert(wanted@.skip(0) =~= wanted@);
        assert(out@.map_values(|s: String| s@) =~= Seq::<Seq<char>>::empty());
        assert(out@.map_values(|s: String| s@) + missing_names(found@, wanted@) =~= missing_names(
            found@,
            wanted@,
        ));
    }
    while i < n
        invariant
            n == wanted@.len(),
            i <= n,
            missing_names(found@, wanted@) == out@.map_values(|s: String| s@) + missing_names(
                found@,
                wanted@.skip(i as int),
            ),
        decreases n - i,
    {
        proof {
            assert(wanted@.skip(i as int)[0] == wanted@[i as int]);
            assert(wanted@.skip(i as int).skip(1) =~= wanted@.skip(i + 1));
        }
        if !contains_name(found, wanted[i].as_str()) {
            let ghost prev = out@;
            out.push(wanted[i].clone());
            proof {
                assert(out@.map_values(|s: String| s@) =~= prev.map_values(|s: String| s@).push(
                    wanted@[i as int]@,
                ));
                assert(prev.map_values(|s: String| s@).push(wanted@[i as int]@) + missing_names(
                    found@,
                    wanted@.skip(i + 1),
                ) =~= prev.map_values(|s: String| s@) + (seq![wanted@[i as int]@] + missing_names(
                    found@,
                    wanted@.skip(i + 1),
                )));
            }
        }
        i = i + 1;
    }
    proof {
        assert(missing_names(found@, wanted@.skip(n as int)) =~= Seq::<Seq<char>>::empty());
        assert(out@.map_values(|s: String| s@) + missing_names(found@, wanted@.skip(n as int))
            =~= out@.map_values(|s: String| s@));
    }
    out
}

/// Some entry of the list equals the given string.
pub fn contains_name(list: &Vec<String>, s: &str) -> (r: bool)
    ensures
        r == exists|i: int| 0 <= i < list@.len() && (#[trigger] list@[i])@ == s@,
{
    let n = list.len();
    let mut i: usize = 0;
    while i < n
        invariant
            n == list@.len(),
            i <= n,
            forall|j: int| 0 <= j < i ==> (#[trigger] list@[j])@ != s@,
        decreases n - i,
    {
        if str_eq(list[i].as_str(), s) {
            return true;
        }
        i = i + 1;
    }
    false
}

impl DataManager {
    /// Finds the extension with the given name, returning its index and
    /// a reference to it.
    pub fn get_extension(&self, name: &str) -> (r: Option<(usize, &Extension)>)
        ensures
            match r {
                Some((i, e)) => i < self.extensions@.len() && self.extensions@[i as int].name@
                    == name@ && *e == self.extensions@[i as int] && (forall|j: int|
                    0 <= j < i ==> self.extensions@[j].name@ != name@),
                None => forall|j: int|
                    0 <= j < self.extensions@.len() ==> self.extensions@[j].name@ != name@,
            },
    {
        let n = self.extensions.len();
        let mut i: usize = 0;
        while i < n
            invariant
                n == self.extensions@.len(),
                i <= n,
                forall|j: int| 0 <= j < i ==> self.extensions@[j].name@ != name@,
            decreases n - i,
        {
            if str_eq(self.extensions[i].name.as_str(), name) {
                return Some((i, &self.extensions[i]));
            }
            i = i + 1;
        }
        None
    }

    /// The wallpaper profile at the given index, or an error when the
    /// index is out of range.
    pub fn get_wallpaper_by_index(&self, index: usize) -> (r: Result<&Wallpaper, DataError>)
        ensures
            match r {
                Ok(w) => index < self.wallpapers@.len() && *w == self.wallpapers@[index as int],
                Err(e) => index >= self.wallpapers@.len() && e == DataError::WallpaperNotFound,
            },
    {
        if index < self.wallpapers.len() {
            Ok(&self.wallpapers[index])
        } else {
            Err(DataError::WallpaperNotFound)
        }
    }

    /// Index of the first wallpaper profile with the given name.
    pub fn get_wallpaper_index(&self, name: &str) -> (r: Option<usize>)
        ensures
            match r {
                Some(i) => first_wallpaper_index(self.wallpapers@, name@) == Some(i as int),
                None => first_wallpaper_index(self.wallpapers@, name@).is_none(),
            },
    {
        proof {
            lemma_first_wallpaper_index(self.wallpapers@, name@);
        }
        let n = self.wallpapers.len();
        let mut i: usize = 0;
        while i < n
            invariant
                n == self.wallpapers@.len(),
                i <= n,
                forall|j: int| 0 <= j < i ==> self.wallpapers@[j].name@ != name@,
            decreases n - i,
        {
            if str_eq(self.wallpapers[i].name.as_str(), name) {
                proof {
                    lemma_first_wallpaper_index(self.wallpapers@, name@);
                    match first_wallpaper_index(self.wallpapers@, name@) {
                        Some(k) => {
                            if k < i {
                                assert(self.wallpapers@[k].name@ != name@);
                            } else if k > i {
                                assert(self.wallpapers@[i as int].name@ != name@);
                            }
                        },
                        None => {
                            assert(self.wallpapers@[i as int].name@ != name@);
                        },
                    }
                }
                return Some(i);
            }
            i = i + 1;
        }
        None
    }

    /// The first wallpaper profile with the given name, if any.
    pub fn get_wallpaper(&self, name: &str) -> (r: Option<&Wallpaper>)
        ensures
            match r {
                Some(w) => has_wallpaper(self.wallpapers@, name@) && w.name@ == name@ && (exists|
                    i: int,
                |
                    0 <= i < self.wallpapers@.len() && self.wallpapers@[i] == *w),
                None => !has_wallpaper(self.wallpapers@, name@),
            },
    {
        proof {
            lemma_has_wallpaper_index(self.wallpapers@, name@);
            lemma_first_wallpaper_index(self.wallpapers@, name@);
        }
        match self.get_wallpaper_index(name) {
            Some(i) => Some(&self.wallpapers[i]),
            None => None,
        }
    }

    /// Adds a wallpaper profile entry copied from a template, after the
    /// caller copied the template's files to `path` and read `detail`
    /// from them.  Refused when the template is unknown or the name is
    /// already taken.
    pub fn add_wallpaper(
        &mut self,
        template: &str,
        name: String,
        path: String,
        detail: WallpaperJson,
    ) -> (r: Result<(), DataError>)
        ensures
            match r {
                Ok(()) => {
                    &&& (exists|i: int|
                        0 <= i < old(self).templates@.len() && (#[trigger] old(
                            self,
                        ).templates@[i])@ == template@)
                    &&& !has_wallpaper(old(self).wallpapers@, name@)
                    &&& final(self).wallpapers@ == old(self).wallpapers@.push(
                        Wallpaper { name, path, detail },
                    )
                },
                Err(e) => {
                    &&& *final(self) == *old(self)
                    &&& if !(exists|i: int|
                        0 <= i < old(self).templates@.len() && (#[trigger] old(
                            self,
                        ).templates@[i])@ == template@) {
                        e == DataError::UnknownTemplate
                    } else {
                        has_wallpaper(old(self).wallpapers@, name@) && e == DataError::AlreadyAdded
                    }
                },
            },
            final(self).general == old(self).general,
            final(self).templates == old(self).templates,
            final(self).extensions == old(self).extensions,
    {
        if !contains_name(&self.templates, template) {
            return Err(DataError::UnknownTemplate);
        }
        if self.get_wallpaper(name.as_str()).is_some() {
            return Err(DataError::AlreadyAdded);
        }
        self.wallpapers.push(Wallpaper { name, path, detail });
        Ok(())
    }

    /// Renames every wallpaper profile entry called `before` to `after`,
    /// giving it the new directory path; the caller renames the
    /// directory itself.  Refused when no profile carries the old name.
    pub fn mv_wallpaper(&mut self, before: &str, after: &str, new_path: &str) -> (r: Result<
        (),
        DataError,
    >)
        ensures
            match r {
                Ok(()) => {
                    &&& has_wallpaper(old(self).wallpapers@, before@)
                    &&& final(self).wallpapers@.len() == old(self).wallpapers@.len()
                    &&& forall|i: int|
                        0 <= i < old(self).wallpapers@.len() ==> {
                            let w0 = #[trigger] old(self).wallpapers@[i];
                            let w1 = final(self).wallpapers@[i];
                            if w0.name@ == before@ {
                                w1.name@ == after@ && w1.path@ == new_path@ && w1.detail
                                    == w0.detail
                            } else {
                                w1 == w0
                            }
                        }
                },
                Err(e) => {
                    &&& !has_wallpaper(old(self).wallpapers@, before@)
                    &&& e == DataError::WallpaperNotFound
                    &&& *final(self) == *old(self)
                },
            },
            final(self).general == old(self).general,
            final(self).templates == old(self).templates,
            final(self).extensions == old(self).extensions,
    {
        if self.get_wallpaper(before).is_none() {
            return Err(DataError::WallpaperNotFound);
        }
        let n = self.wallpapers.len();
        let mut i: usize = 0;
        while i < n
            invariant
                n == self.wallpapers@.len(),
                n == old(self).wallpapers@.len(),
                i <= n,
                self.general == old(self).general,
                self.templates == old(self).templates,
                self.extensions == old(self).extensions,
                forall|j: int|
                    i <= j < n ==> #[trigger] self.wallpapers@[j] == old(self).wallpapers@[j],
                forall|j: int|
                    0 <= j < i ==> {
                        let w0 = old(self).wallpapers@[j];
                        let w1 = #[trigger] self.wallpapers@[j];
                        if w0.name@ == before@ {
                            w1.name@ == after@ && w1.path@ == new_path@ && w1.detail == w0.detail
                        } else {
                            w1 == w0
                        }
                    },
            decreases n - i,
        {
            if str_eq(self.wallpapers[i].name.as_str(), before) {
                self.wallpapers[i].name = String::from_str(after);
                self.wallpapers[i].path = String::from_str(new_path);
            }
            i = i + 1;
        }
        Ok(())
    }

    /// The indices of the rules that use the given wallpaper profile, in
    /// ascending order.
    pub fn get_wallpaper_setting(&self, name: &str) -> (r: Vec<usize>)
        ensures
            r@.map_values(|x: usize| x as int) == rule_indices_for(
                self.general.wallpapers@,
                name@,
                0,
            ),
    {
        let rules = &self.general.wallpapers;
        let n = rules.len();
        let mut out: Vec<usize> = Vec::new();
        let mut i: usize = 0;
        while i < n
            invariant
                n == rules@.len(),
                rules@ == self.general.wallpapers@,
                i <= n,
                rule_indices_for(rules@, name@, 0) == out@.map_values(|x: usize| x as int)
                    + rule_indices_for(rules@, name@, i as int),
            decreases n - i,
        {
            if str_eq(rules[i].wallpaper.as_str(), name) {
                out.push(i);
                proof {
                    assert(out@.map_values(|x: usize| x as int) =~= out@.drop_last().map_values(
                        |x: usize| x as int,
                    ).push(i as int));
                    assert(out@.drop_last().map_values(|x: usize| x as int).push(i as int) + rule_indices_for(
                        rules@,
                        name@,
                        i + 1,
                    ) =~= out@.drop_last().map_values(|x: usize| x as int) + (seq![i as int]
                        + rule_indices_for(rules@, name@, i + 1)));
                }
            }
            i = i + 1;
        }
        proof {
            assert(out@.map_values(|x: usize| x as int) + rule_indices_for(rules@, name@, n as int)
                =~= out@.map_values(|x: usize| x as int));
        }
        out
    }

    /// Removes every rule that references the given wallpaper profile,
    /// keeping the order of the rest; used when a profile is deleted.
    pub fn remove_wallpaper_rules(&mut self, name: &str)
        ensures
            final(self).general.wallpapers@ == rules_without(
                old(self).general.wallpapers@,
                name@,
            ),
            final(self).general.language == old(self).general.language,
            final(self).general.update_interval_ms == old(self).general.update_interval_ms,
            final(self).general.dev == old(self).general.dev,
            final(self).wallpapers == old(self).wallpapers,
            final(self).templates == old(self).templates,
            final(self).extensions == old(self).extensions,
    {
        let ghost orig = self.general.wallpapers@;
        let mut k = self.general.wallpapers.len();
        proof {
            assert(self.general.wallpapers@ =~= orig.take(k as int) + rules_without(
                orig.skip(k as int),
                name@,
            ));
        }
        while k > 0
            invariant
                k <= orig.len(),
                orig == old(self).general.wallpapers@,
                self.general.wallpapers@ == orig.take(k as int) + rules_without(
                    orig.skip(k as int),
                    name@,
                ),
                self.general.language == old(self).general.language,
                self.general.update_interval_ms == old(self).general.update_interval_ms,
                self.general.dev == old(self).general.dev,
                self.wallpapers == old(self).wallpapers,
                self.templates == old(self).templates,
                self.extensions == old(self).extensions,
            decreases k,
        {
            k = k - 1;
            proof {
                assert(orig.skip(k as int)[0] == orig[k as int]);
                assert(orig.skip(k as int).skip(1) =~= orig.skip(k + 1));
            }
            if str_eq(self.general.wallpapers[k].wallpaper.as_str(), name) {
                self.general.wallpapers.remove(k);
                proof {
                    assert(self.general.wallpapers@ =~= orig.take(k as int) + rules_without(
                        orig.skip(k as int),
                        name@,
                    ));
                }
            } else {
                proof {
                    assert(self.general.wallpapers@ =~= orig.take(k as int) + rules_without(
                        orig.skip(k as int),
                        name@,
                    ));
                }
            }
        }
        proof {
            assert(orig.skip(0) =~= orig);
            assert(self.general.wallpapers@ =~= rules_without(orig, name@));
        }
    }

    /// Requeues every rule that references profile `before` at the end
    /// of the rule list, now referencing `after`; the rest keep their
    /// order.  The requeue runs back to front, so the moved rules stand
    /// in descending original order; used when a profile is renamed.
    pub fn rename_wallpaper_rules(&mut self, before: &str, after: &str)
        ensures
            ({
                let orig = old(self).general.wallpapers@;
                let kept = rules_without(orig, before@);
                let moved = matching_rules_rev(orig, before@, 0);
                let now = final(self).general.wallpapers@;
                &&& now.len() == orig.len()
                &&& now.take(kept.len() as int) == kept
                &&& now.len() - kept.len() == moved.len()
                &&& forall|p: int|
                    0 <= p < moved.len() ==> {
                        let m = #[trigger] now[kept.len() + p];
                        m.wallpaper@ == after@ && m.targets == moved[p].targets && m.exceptions
                            == moved[p].exceptions && m.alpha == moved[p].alpha && m.shift
                            == moved[p].shift
                    }
            }),
            final(self).general.language == old(self).general.language,
            final(self).general.update_interval_ms == old(self).general.update_interval_ms,
            final(self).general.dev == old(self).general.dev,
            final(self).wallpapers == old(self).wallpapers,
            final(self).templates == old(self).templates,
            final(self).extensions == old(self).extensions,
    {
        let ghost orig = self.general.wallpapers@;
        let mut k = self.general.wallpapers.len();
        proof {
            assert(matching_rules_rev(orig, before@, k as int) =~= Seq::<Target>::empty());
            assert(self.general.wallpapers@ =~= orig.take(k as int) + rules_without(
                orig.skip(k as int),
                before@,
            ) + Seq::<Target>::empty());
        }
        while k > 0
            invariant
                k <= orig.len(),
                orig == old(self).general.wallpapers@,
                self.general.wallpapers@.len() >= k,
                ({
                    let moved = matching_rules_rev(orig, before@, k as int);
                    let cur = self.general.wallpapers@;
                    let stable = orig.take(k as int) + rules_without(orig.skip(k as int), before@);
                    &&& cur.len() == stable.len() + moved.len()
                    &&& cur.take(stable.len() as int) == stable
                    &&& forall|p: int|
                        0 <= p < moved.len() ==> {
                            let m = #[trigger] cur[stable.len() + p];
                            m.wallpaper@ == after@ && m.targets == moved[p].targets
                                && m.exceptions == moved[p].exceptions && m.alpha == moved[p].alpha
                                && m.shift == moved[p].shift
                        }
                }),
                self.general.language == old(self).general.language,
                self.general.update_interval_ms == old(self).general.update_interval_ms,
                self.general.dev == old(self).general.dev,
                self.wallpapers == old(self).wallpapers,
                self.templates == old(self).templates,
                self.extensions == old(self).extensions,
            decreases k,
        {
            k = k - 1;
            proof {
                assert(orig.skip(k as int)[0] == orig[k as int]);
                assert(orig.skip(k as int).skip(1) =~= orig.skip(k + 1));
            }
            proof {
                let stable1 = orig.take(k + 1) + rules_without(orig.skip(k + 1), before@);
                assert(self.general.wallpapers@.take(stable1.len() as int)[k as int]
                    == self.general.wallpapers@[k as int]);
                assert(stable1[k as int] == orig.take(k + 1)[k as int]);
                assert(self.general.wallpapers@[k as int] == orig[k as int]);
            }
            if str_eq(self.general.wallpapers[k].wallpaper.as_str(), before) {
                let ghost cur0 = self.general.wallpapers@;
                let mut moved_rule = self.general.wallpapers.remove(k);
                moved_rule.wallpaper = String::from_str(after);
                self.general.wallpapers.push(moved_rule);
                proof {
                    let moved1 = matching_rules_rev(orig, before@, k + 1);
                    let moved = matching_rules_rev(orig, before@, k as int);
                    let stable1 = orig.take(k + 1) + rules_without(orig.skip(k + 1), before@);
                    let stable = orig.take(k as int) + rules_without(orig.skip(k as int), before@);
                    let cur = self.general.wallpapers@;
                    assert(moved =~= moved1 + seq![orig[k as int]]);
                    assert(rules_without(orig.skip(k as int), before@) =~= rules_without(
                        orig.skip(k + 1),
                        before@,
                    ));
                    assert(stable.len() == stable1.len() - 1);
                    assert(cur.len() == cur0.len());
                    assert(cur0.len() == stable1.len() + moved1.len());
                    assert forall|p: int| 0 <= p < stable.len() implies cur[p] == stable[p] by {
                        if p < k {
                            assert(cur0.take(stable1.len() as int)[p] == cur0[p]);
                            assert(cur[p] == cur0[p]);
                            assert(stable1[p] == orig.take(k + 1)[p]);
                            assert(stable[p] == orig.take(k as int)[p]);
                        } else {
                            assert(cur[p] == cur0[p + 1]);
                            assert(cur0.take(stable1.len() as int)[p + 1] == cur0[p + 1]);
                            assert(cur0[p + 1] == stable1[p + 1]);
                            assert(stable1[p + 1] == rules_without(orig.skip(k + 1), before@)[p + 1
                                - (k + 1)]);
                            assert(stable[p] == rules_without(orig.skip(k as int), before@)[p - k]);
                        }
                    }
                    assert(cur.take(stable.len() as int) =~= stable);
                    assert forall|p: int| 0 <= p < moved.len() implies ({
                        let m = #[trigger] cur[stable.len() + p];
                        m.wallpaper@ == after@ && m.targets == moved[p].targets && m.exceptions
                            == moved[p].exceptions && m.alpha == moved[p].alpha && m.shift
                            == moved[p].shift
                    }) by {
                        if p < moved1.len() {
                            assert(cur[stable.len() + p] == cur0[stable.len() + p + 1]);
                            assert(cur0[stable1.len() + p] == cur0[stable.len() + p + 1]);
                            assert(moved[p] == moved1[p]);
                        } else {
                            assert(stable.len() + p == cur.len() - 1);
                            assert(cur[stable.len() + p] == cur.last());
                            assert(moved[p] == orig[k as int]);
                        }
                    }
                }
            } else {
                proof {
                    let stable = orig.take(k as int) + rules_without(orig.skip(k as int), before@);
                    assert(self.general.wallpapers@.take(stable.len() as int) =~= stable);
                    assert(matching_rules_rev(orig, before@, k as int) =~= matching_rules_rev(
                        orig,
                        before@,
                        k + 1,
                    ));
                }
            }
        }
        proof {
            assert(orig.skip(0) =~= orig);
            assert(orig.take(0) =~= Seq::<Target>::empty());
            let kept = rules_without(orig, before@);
            let stable = orig.take(0) + rules_without(orig.skip(0), before@);
            assert(stable =~= kept);
            lemma_rules_partition_len(orig, before@, 0);
        }
    }

    /// Removes the wallpaper profile entry at the given index.  The caller
    /// is expected to have removed the profile's directory already.
    pub fn remove_wallpaper(&mut self, index: usize) -> (r: Result<(), DataError>)
        ensures
            match r {
                Ok(()) => index < old(self).wallpapers@.len() && final(self).wallpapers@ == old(
                    self,
                ).wallpapers@.remove(index as int),
                Err(e) => index >= old(self).wallpapers@.len() && e
                    == DataError::WallpaperNotFound && *final(self) == *old(self),
            },
            final(self).general == old(self).general,
            final(self).templates == old(self).templates,
            final(self).extensions == old(self).extensions,
    {
        if index < self.wallpapers.len() {
            self.wallpapers.remove(index);
            Ok(())
        } else {
            Err(DataError::WallpaperNotFound)
        }
    }
}

} // verus!
