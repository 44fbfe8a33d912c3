//! Why a compilation unit had to be rebuilt.

use vstd::prelude::*;

verus! {

/// The reason that cargo gives for calling a compilation unit dirty.
#[derive(Debug)]
pub enum RebuildReason {
    /// An environment variable that the unit depends on has another value.
    EnvVarChanged { name: String, old_value: Option<String>, new_value: Option<String> },
    /// A unit that this one depends on was rebuilt. Fingerprints that cargo
    /// did not print are empty.
    UnitDependencyInfoChanged {
        name: String,
        old_fingerprint: String,
        new_fingerprint: String,
        context: Option<String>,
    },
    /// The target was configured otherwise.
    TargetConfigurationChanged,
    /// The profile was configured otherwise.
    ProfileConfigurationChanged,
    /// The compiler was given other flags.
    RustflagsChanged { old: Vec<String>, new: Vec<String> },
    /// Other features were enabled.
    FeaturesChanged { old: String, new: String },
    /// A file is newer than what was built from it.
    FileChanged { path: String },
    /// A reason in a form that is not known, as cargo printed it.
    Unknown(String),
}

/// The model of a [`RebuildReason`]: the same reason over plain sequences.
#[verifier::ext_equal]
pub enum RebuildReasonView {
    EnvVarChanged {
        name: Seq<char>,
        old_value: Option<Seq<char>>,
        new_value: Option<Seq<char>>,
    },
    UnitDependencyInfoChanged {
        name: Seq<char>,
        old_fingerprint: Seq<char>,
        new_fingerprint: Seq<char>,
        context: Option<Seq<char>>,
    },
    TargetConfigurationChanged,
    ProfileConfigurationChanged,
    RustflagsChanged { old: Seq<Seq<char>>, new: Seq<Seq<char>> },
    FeaturesChanged { old: Seq<char>, new: Seq<char> },
    FileChanged { path: Seq<char> },
    Unknown(Seq<char>),
}

impl View for RebuildReason {
    type V = RebuildReasonView;

    open spec fn view(&self) -> RebuildReasonView {
        match self {
            RebuildReason::EnvVarChanged { name, old_value, new_value } => {
                RebuildReasonView::EnvVarChanged {
                    name: name@,
                    old_value: old_value.deep_view(),
                    new_value: new_value.deep_view(),
                }
            },
            RebuildReason::UnitDependencyInfoChanged {
                name,
                old_fingerprint,
                new_fingerprint,
                context,
            } => RebuildReasonView::UnitDependencyInfoChanged {
                name: name@,
                old_fingerprint: old_fingerprint@,
                new_fingerprint: new_fingerprint@,
                context: context.deep_view(),
            },
            RebuildReason::TargetConfigurationChanged => {
                RebuildReasonView::TargetConfigurationChanged
            },
            RebuildReason::ProfileConfigurationChanged => {
                RebuildReasonView::ProfileConfigurationChanged
            },
            RebuildReason::RustflagsChanged { old, new } => RebuildReasonView::RustflagsChanged {
                old: old.deep_view(),
                new: new.deep_view(),
            },
            RebuildReason::FeaturesChanged { old, new } => RebuildReasonView::FeaturesChanged {
                old: old@,
                new: new@,
            },
            RebuildReason::FileChanged { path } => RebuildReasonView::FileChanged { path: path@ },
            RebuildReason::Unknown(text) => RebuildReasonView::Unknown(text@),
        }
    }
}

/// Whether two optional texts are the same.
pub fn same_option(a: &Option<String>, b: &Option<String>) -> (same: bool)
    ensures
        same == (a.deep_view() == b.deep_view()),
{
    match (a, b) {
        (Some(x), Some(y)) => *x == *y,
        (None, None) => true,
        _ => false,
    }
}

/// Whether two lists of texts are the same.
pub fn same_list(a: &Vec<String>, b: &Vec<String>) -> (same: bool)
    ensures
        same == (a.deep_view() == b.deep_view()),
{
    if a.len() != b.len() {
        assert(a.deep_view().len() != b.deep_view().len());
        return false;
    }
    let mut i: usize = 0;
    while i < a.len()
        invariant
            i <= a@.len() == b@.len(),
            forall|j: int| 0 <= j < i ==> a@[j]@ == b@[j]@,
        decreases a@.len() - i,
    {
        if a[i] != b[i] {
            assert(a.deep_view()[i as int] != b.deep_view()[i as int]);
            return false;
        }
        i = i + 1;
    }
    assert(a.deep_view() == b.deep_view());
    true
}

/// A copy of an optional text.
pub fn copy_option(a: &Option<String>) -> (copy: Option<String>)
    ensures
        copy == *a,
{
    match a {
        Some(x) => Some(x.clone()),
        None => None,
    }
}

/// A copy of a list of texts.
pub fn copy_list(a: &Vec<String>) -> (copy: Vec<String>)
    ensures
        copy@ == a@,
{
    let mut copy: Vec<String> = Vec::new();
    let mut i: usize = 0;
    while i < a.len()
        invariant
            i <= a@.len(),
            copy@ == a@.take(i as int),
        decreases a@.len() - i,
    {
        copy.push(a[i].clone());
        i = i + 1;
        assert(copy@ == a@.take(i as int));
    }
    assert(a@.take(i as int) == a@);
    copy
}

impl PartialEq for RebuildReason {
    fn eq(&self, other: &Self) -> (same: bool) {
        match (self, other) {
            (
                RebuildReason::EnvVarChanged { name: a, old_value: b, new_value: c },
                RebuildReason::EnvVarChanged { name: x, old_value: y, new_value: z },
            ) => *a == *x && same_option(b, y) && same_option(c, z),
            (
                RebuildReason::UnitDependencyInfoChanged {
                    name: a,
                    old_fingerprint: b,
                    new_fingerprint: c,
                    context: d,
                },
                RebuildReason::UnitDependencyInfoChanged {
                    name: w,
                    old_fingerprint: x,
                    new_fingerprint: y,
                    context: z,
                },
            ) => *a == *w && *b == *x && *c == *y && same_option(d, z),
            (
                RebuildReason::TargetConfigurationChanged,
                RebuildReason::TargetConfigurationChanged,
            ) => true,
            (
                RebuildReason::ProfileConfigurationChanged,
                RebuildReason::ProfileConfigurationChanged,
            ) => true,
            (
                RebuildReason::RustflagsChanged { old: a, new: b },
                RebuildReason::RustflagsChanged { old: x, new: y },
            ) => same_list(a, x) && same_list(b, y),
            (
                RebuildReason::FeaturesChanged { old: a, new: b },
                RebuildReason::FeaturesChanged { old: x, new: y },
            ) => *a == *x && *b == *y,
            (RebuildReason::FileChanged { path: a }, RebuildReason::FileChanged { path: x }) => *a
                == *x,
            (RebuildReason::Unknown(a), RebuildReason::Unknown(x)) => *a == *x,
            _ => false,
        }
    }
}

impl vstd::std_specs::cmp::PartialEqSpecImpl for RebuildReason {
    open spec fn obeys_eq_spec() -> bool {
        true
    }

    open spec fn eq_spec(&self, other: &Self) -> bool {
        self@ == other@
    }
}

impl Clone for RebuildReason {
    fn clone(&self) -> (copy: Self)
        ensures
            copy@ == self@,
    {
        match self {
            RebuildReason::EnvVarChanged { name, old_value, new_value } => {
                RebuildReason::EnvVarChanged {
                    name: name.clone(),
                    old_value: copy_option(old_value),
                    new_value: copy_option(new_value),
                }
            },
            RebuildReason::UnitDependencyInfoChanged {
                name,
                old_fingerprint,
                new_fingerprint,
                context,
            } => RebuildReason::UnitDependencyInfoChanged {
                name: name.clone(),
                old_fingerprint: old_fingerprint.clone(),
                new_fingerprint: new_fingerprint.clone(),
                context: copy_option(context),
            },
            RebuildReason::TargetConfigurationChanged => RebuildReason::TargetConfigurationChanged,
            RebuildReason::ProfileConfigurationChanged => {
                RebuildReason::ProfileConfigurationChanged
            },
            RebuildReason::RustflagsChanged { old, new } => {
                let copy = RebuildReason::RustflagsChanged {
                    old: copy_list(old),
                    new: copy_list(new),
                };
                assert(copy@ =~~= self@);
                copy
            },
            RebuildReason::FeaturesChanged { old, new } => RebuildReason::FeaturesChanged {
                old: old.clone(),
                new: new.clone(),
            },
            RebuildReason::FileChanged { path } => RebuildReason::FileChanged {
                path: path.clone(),
            },
            RebuildReason::Unknown(text) => RebuildReason::Unknown(text.clone()),
        }
    }
}

} // verus!
