//! Feature specifications under `.kiro/specs`, named `<date>-<feature>`.

use vstd::prelude::*;
use vstd::string::StringExecFns;
use crate::clock::today_utc_date;
use crate::naming::{
    dir_name_for, extract_feature_name, feature_dir_name, feature_name_of, is_date_text,
    law_dated_feature_name_round_trip,
};
use crate::config::texts;
use crate::tag_list::{sort_names, sort_texts};

verus! {

/// The feature names carried by a list of directory names, in order; names
/// with fewer than three dashes carry none.
pub open spec fn features_of(dir_names: Seq<Seq<char>>) -> Seq<Seq<char>>
    decreases dir_names.len(),
{
    if dir_names.len() == 0 {
        Seq::empty()
    } else {
        let rest = features_of(dir_names.drop_last());
        match feature_name_of(dir_names.last()) {
            Some(n) => rest.push(n),
            None => rest,
        }
    }
}

/// Manages the feature specification directories of a project.
pub struct ProjectManager {
    base_path: String,
}

impl ProjectManager {
    /// The directory that holds the feature specifications.
    pub closed spec fn base(&self) -> Seq<char> {
        self.base_path@
    }

    /// A manager for `.kiro/specs` relative to the current directory.
    pub fn new() -> (pm: Self)
        ensures
            pm.base() == ".kiro/specs"@,
    {
        ProjectManager { base_path: String::from_str(".kiro/specs") }
    }

    /// The directory that holds the feature specifications.
    pub fn base_path(&self) -> (r: &str)
        ensures
            r@ == self.base(),
    {
        self.base_path.as_str()
    }

    /// The directory name for `feature_name` created today: `<today>-<feature_name>`.
    pub fn generate_feature_dir_name(&self, feature_name: &str) -> (r: String)
        ensures
            exists|d: Seq<char>| is_date_text(d) && r@ == dir_name_for(d, feature_name@),
            feature_name_of(r@) == Some(feature_name@),
    {
        let today = today_utc_date();
        proof {
            law_dated_feature_name_round_trip(today@, feature_name@);
        }
        feature_dir_name(today.as_str(), feature_name)
    }

    /// The feature name a directory name `YYYY-MM-dd-<feature>` carries:
    /// the text after its third dash, if it has three.
    pub fn extract_feature_name(&self, dir_name: &str) -> (r: Option<String>)
        ensures
            r matches Some(n) ==> feature_name_of(dir_name@) == Some(n@),
            r is None <==> feature_name_of(dir_name@) is None,
    {
        extract_feature_name(dir_name)
    }

    /// The features named by the listed specification directories, in order.
    pub fn features_from_dir_names(&self, dir_names: &[String]) -> (r: Vec<String>)
        ensures
            r@.map_values(|s: String| s@) == features_of(dir_names@.map_values(|s: String| s@)),
    {
        let ghost names = dir_names@.map_values(|s: String| s@);
        let mut r: Vec<String> = Vec::new();
        let mut i: usize = 0;
        while i < dir_names.len()
            invariant
                i <= dir_names@.len(),
                names == dir_names@.map_values(|s: String| s@),
                r@.map_values(|s: String| s@) == features_of(names.take(i as int)),
            decreases dir_names.len() - i,
        {
            let ghost prev = r@;
            assert(names.take(i + 1).drop_last() =~= names.take(i as int));
            match self.extract_feature_name(dir_names[i].as_str()) {
                Some(n) => {
                    r.push(n);
                    assert(r@.map_values(|s: String| s@) =~= prev.map_values(|s: String| s@).push(
                        n@,
                    ));
                },
                None => {},
            }
            i = i + 1;
        }
        assert(names.take(dir_names@.len() as int) =~= names);
        r
    }

    /// The features of the listed specification directories, sorted by name.
    pub fn list_features(&self, dir_names: &[String]) -> (r: Vec<String>)
        ensures
            texts(r@) == sort_texts(features_of(texts(dir_names@))),
    {
        let features = self.features_from_dir_names(dir_names);
        assert(texts(features@) == features_of(texts(dir_names@)));
        sort_names(features)
    }

    /// Whether one of the listed specification directories carries `feature_name`.
    pub fn feature_exists(&self, dir_names: &[String], feature_name: &str) -> (r: bool)
        ensures
            r == exists|i: int|
                0 <= i < dir_names@.len() && feature_name_of(#[trigger] dir_names@[i]@) == Some(
                    feature_name@,
                ),
    {
        let mut i: usize = 0;
        while i < dir_names.len()
            invariant
                i <= dir_names@.len(),
                forall|j: int|
                    0 <= j < i ==> feature_name_of(#[trigger] dir_names@[j]@) != Some(
                        feature_name@,
                    ),
            decreases dir_names.len() - i,
        {
            match extract_feature_name(dir_names[i].as_str()) {
                Some(n) => {
                    if crate::text::str_eq(n.as_str(), feature_name) {
                        return true;
                    }
                },
                None => {},
            }
            i = i + 1;
        }
        false
    }
}

} // verus!
