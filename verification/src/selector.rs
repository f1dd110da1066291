//! Object filters that include or exclude objects by a selector over their
//! labels or annotations.
use crate::selector_parse::{
    all_match, expression_views, pair_views, parse_expressions, parse_selector, skip_ws,
    Expression, ExpressionView,
};
use core::marker::PhantomData;
use vstd::prelude::*;

verus! {

/// The metadata of a collected object that selectors read.
#[derive(Clone, Debug, Default)]
pub struct ResourceMeta {
    pub labels: Vec<(String, String)>,
    pub annotations: Vec<(String, String)>,
}

/// Why a selector text was refused.
#[derive(Clone, Copy, Debug, PartialEq, Eq)]
pub enum SelectorError {
    /// The text is not a selector.
    InvalidSelector,
}

/// A list of requirements that an object must all meet.
#[derive(Clone, Debug, Default)]
pub struct Expressions(pub Vec<Expression>);

impl View for Expressions {
    type V = Seq<ExpressionView>;

    open spec fn view(&self) -> Seq<ExpressionView> {
        expression_views(self.0@)
    }
}

impl Expressions {
    /// Parses a selector text such as `app=web,tier!=db,env in (a,b),!legacy`.
    pub fn try_from(value: String) -> (res: Result<Expressions, SelectorError>)
        ensures
            match res {
                Ok(e) => parse_selector(value@) == Some(e@),
                Err(err) => parse_selector(value@) is None && err == SelectorError::InvalidSelector,
            },
    {
        match parse_expressions(value.as_str()) {
            Some(es) => Ok(Expressions(es)),
            None => Err(SelectorError::InvalidSelector),
        }
    }

    /// Whether every requirement holds of the labels.
    pub fn matches(&self, labels: &Vec<(String, String)>) -> (res: bool)
        ensures
            res == all_match(self@, pair_views(labels@)),
    {
        let mut i: usize = 0;
        while i < self.0.len()
            invariant
                i <= self.0.len(),
                forall|j: int| 0 <= j < i ==> #[trigger] self@[j].matches(pair_views(labels@)),
            decreases self.0.len() - i,
        {
            if !self.0[i].matches(labels) {
                assert(self@[i as int] == self.0@[i as int]@);
                assert(!self@[i as int].matches(pair_views(labels@)));
                return false;
            }
            i = i + 1;
        }
        true
    }
}

/// Where a selector looks: at the labels or at the annotations of an object.
#[derive(Clone, Copy, Debug, PartialEq, Eq, Default)]
pub enum SelectorGroup {
    #[default]
    Labels,
    Annotations,
}

/// Selects on labels.
#[derive(Clone, Copy, Debug, Default)]
pub struct LabelGroup;

/// Selects on annotations.
#[derive(Clone, Copy, Debug, Default)]
pub struct AnnotationGroup;

/// The key/value pairs of an object that a selector reads.
pub trait SelectorSource {
    /// The pairs that `select` gives for `obj`.
    spec fn source_of(obj: ResourceMeta) -> Vec<(String, String)>;

    fn select(obj: &ResourceMeta) -> (m: &Vec<(String, String)>)
        ensures
            *m == Self::source_of(*obj),
    ;
}

impl SelectorSource for LabelGroup {
    open spec fn source_of(obj: ResourceMeta) -> Vec<(String, String)> {
        obj.labels
    }

    fn select(obj: &ResourceMeta) -> (m: &Vec<(String, String)>) {
        &obj.labels
    }
}

impl SelectorSource for AnnotationGroup {
    open spec fn source_of(obj: ResourceMeta) -> Vec<(String, String)> {
        obj.annotations
    }

    fn select(obj: &ResourceMeta) -> (m: &Vec<(String, String)>) {
        &obj.annotations
    }
}

/// Whether the selector selects the object through source `G`.
pub open spec fn selects<G: SelectorSource>(exprs: Seq<ExpressionView>, obj: ResourceMeta) -> bool {
    all_match(exprs, pair_views(G::source_of(obj)@))
}

/// Keeps the objects that a selector selects.
#[derive(Debug, Default)]
pub struct SelectorInclude<G: SelectorSource> {
    selector: Expressions,
    group: PhantomData<G>,
}

/// Keeps the objects that a selector does not select.
#[derive(Debug, Default)]
pub struct SelectorExclude<G: SelectorSource> {
    selector: Expressions,
    group: PhantomData<G>,
}

impl<G: SelectorSource> Clone for SelectorInclude<G> {
    fn clone(&self) -> Self {
        SelectorInclude { selector: self.selector.clone(), group: PhantomData }
    }
}

impl<G: SelectorSource> Clone for SelectorExclude<G> {
    fn clone(&self) -> Self {
        SelectorExclude { selector: self.selector.clone(), group: PhantomData }
    }
}

impl<G: SelectorSource> View for SelectorInclude<G> {
    type V = Seq<ExpressionView>;

    closed spec fn view(&self) -> Seq<ExpressionView> {
        self.selector@
    }
}

impl<G: SelectorSource> View for SelectorExclude<G> {
    type V = Seq<ExpressionView>;

    closed spec fn view(&self) -> Seq<ExpressionView> {
        self.selector@
    }
}

impl<G: SelectorSource> SelectorInclude<G> {
    /// A filter from a selector text.
    pub fn try_from(value: String) -> (res: Result<Self, SelectorError>)
        ensures
            match res {
                Ok(f) => parse_selector(value@) == Some(f@),
                Err(err) => parse_selector(value@) is None && err == SelectorError::InvalidSelector,
            },
    {
        let selector = Expressions::try_from(value)?;
        Ok(SelectorInclude { selector, group: PhantomData })
    }

    /// `Some(true)` when the selector selects the object.
    pub fn filter_object(&self, obj: &ResourceMeta) -> (res: Option<bool>)
        ensures
            res == Some(selects::<G>(self@, *obj)),
    {
        Some(self.selector.matches(G::select(obj)))
    }
}

impl<G: SelectorSource> SelectorExclude<G> {
    /// A filter from a selector text.
    pub fn try_from(value: String) -> (res: Result<Self, SelectorError>)
        ensures
            match res {
                Ok(f) => parse_selector(value@) == Some(f@),
                Err(err) => parse_selector(value@) is None && err == SelectorError::InvalidSelector,
            },
    {
        let selector = Expressions::try_from(value)?;
        Ok(SelectorExclude { selector, group: PhantomData })
    }

    /// `Some(true)` when the selector does not select the object.
    pub fn filter_object(&self, obj: &ResourceMeta) -> (res: Option<bool>)
        ensures
            res == Some(!selects::<G>(self@, *obj)),
    {
        Some(!self.selector.matches(G::select(obj)))
    }
}

/// Law: filters made from the same text, one keeping and one dropping what
/// the selector selects, read the same selection on every object, so their
/// decisions are opposite.
pub proof fn law_include_exclude_opposite<G: SelectorSource>(
    text: Seq<char>,
    keep: SelectorInclude<G>,
    drop: SelectorExclude<G>,
    obj: ResourceMeta,
)
    requires
        parse_selector(text) == Some(keep@),
        parse_selector(text) == Some(drop@),
    ensures
        selects::<G>(keep@, obj) == selects::<G>(drop@, obj),
{
}

/// Law: a blank selector text is accepted and selects every object.
pub proof fn law_blank_selector_selects_all<G: SelectorSource>(text: Seq<char>, obj: ResourceMeta)
    requires
        skip_ws(text).len() == 0,
    ensures
        parse_selector(text) == Some(Seq::<ExpressionView>::empty()),
        selects::<G>(Seq::empty(), obj),
{
}

} // verus!
