//! The discovery document: the groups handed to the monitoring system.

use vstd::prelude::*;

verus! {

/// Mathematical model of a [`FileConfig`].
pub ghost struct FileConfigView {
    pub targets: Seq<Seq<char>>,
    pub labels: Seq<(Seq<char>, Seq<char>)>,
}

/// One discovery group: the target URLs grouped under one tag, and the
/// labels under which one endpoint probes them. Label keys are unique
/// within a group.
#[derive(Debug, Clone)]
pub struct FileConfig {
    pub targets: Vec<String>,
    pub labels: Vec<(String, String)>,
}

/// The discovery document: an ordered sequence of groups.
pub type Response = Vec<FileConfig>;

impl View for FileConfig {
    type V = FileConfigView;

    open spec fn view(&self) -> FileConfigView {
        FileConfigView { targets: self.targets.deep_view(), labels: self.labels.deep_view() }
    }
}

impl DeepView for FileConfig {
    type V = FileConfigView;

    open spec fn deep_view(&self) -> FileConfigView {
        self.view()
    }
}

/// The value under `key` in an ordered label list: the first entry with
/// that key, if any.
pub open spec fn spec_label_lookup(labels: Seq<(Seq<char>, Seq<char>)>, key: Seq<char>) -> Option<
    Seq<char>,
>
    decreases labels.len(),
{
    if labels.len() == 0 {
        None
    } else if labels[0].0 == key {
        Some(labels[0].1)
    } else {
        spec_label_lookup(labels.drop_first(), key)
    }
}

impl FileConfig {
    /// The value of the label `key`, if the group carries it.
    pub fn label(&self, key: &String) -> (r: Option<&String>)
        ensures
            match r {
                Some(v) => spec_label_lookup(self@.labels, key@) == Some(v@),
                None => spec_label_lookup(self@.labels, key@) is None,
            },
    {
        let ghost ls = self@.labels;
        let mut i: usize = 0;
        proof {
            assert(ls.skip(0) =~= ls);
        }
        while i < self.labels.len()
            invariant
                i <= self.labels.len(),
                ls == self@.labels,
                spec_label_lookup(ls, key@) == spec_label_lookup(ls.skip(i as int), key@),
            decreases self.labels.len() - i,
        {
            proof {
                assert(ls[i as int] == (self.labels@[i as int].0@, self.labels@[i as int].1@));
                assert(ls.skip(i as int)[0] == ls[i as int]);
                assert(ls.skip(i as int).drop_first() =~= ls.skip(i as int + 1));
            }
            let eq: bool = self.labels[i].0 == *key;
            if eq {
                return Some(&self.labels[i].1);
            }
            i = i + 1;
        }
        proof {
            assert(ls.skip(i as int) =~= Seq::<(Seq<char>, Seq<char>)>::empty());
        }
        None
    }
}

} // verus!
