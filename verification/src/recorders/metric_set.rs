//! Output metrics and the indices of metric sets.

use vstd::prelude::*;

verus! {

/// The mathematical form of an [`OutputMetric`].
pub struct OutputMetricView {
    pub name: Seq<char>,
    pub attribute: Seq<char>,
    pub ty: Seq<char>,
    pub sub_type: Option<Seq<char>>,
}

/// The description of a metric that retains additional information from the schema.
///
/// This is used to store the name and attribute of the metric so that it can be output in
/// a context that is relevant to the originating schema, and therefore more meaningful to the user.
#[derive(Debug)]
pub struct OutputMetric {
    name: String,
    attribute: String,
    // The originating type of the metric (e.g. node, parameter, etc.)
    ty: String,
    // The originating subtype of the metric (e.g. node type, parameter type, etc.)
    sub_type: Option<String>,
}

impl View for OutputMetric {
    type V = OutputMetricView;

    closed spec fn view(&self) -> OutputMetricView {
        OutputMetricView {
            name: self.name@,
            attribute: self.attribute@,
            ty: self.ty@,
            sub_type: match self.sub_type {
                Some(s) => Some(s@),
                None => None,
            },
        }
    }
}

impl OutputMetric {
    pub fn new(name: &str, attribute: &str, ty: &str, sub_type: Option<&str>) -> (r: Self)
        ensures
            r@ == (OutputMetricView {
                name: name@,
                attribute: attribute@,
                ty: ty@,
                sub_type: match sub_type {
                    Some(s) => Some(s@),
                    None => None,
                },
            }),
    {
        let sub_type = match sub_type {
            Some(s) => Some(String::from_str(s)),
            None => None,
        };
        OutputMetric {
            name: String::from_str(name),
            attribute: String::from_str(attribute),
            ty: String::from_str(ty),
            sub_type,
        }
    }

    pub fn name(&self) -> (r: &str)
        ensures
            r@ == self@.name,
    {
        self.name.as_str()
    }

    pub fn attribute(&self) -> (r: &str)
        ensures
            r@ == self@.attribute,
    {
        self.attribute.as_str()
    }

    pub fn ty(&self) -> (r: &str)
        ensures
            r@ == self@.ty,
    {
        self.ty.as_str()
    }

    pub fn sub_type(&self) -> (r: Option<&str>)
        ensures
            match r {
                Some(s) => self@.sub_type == Some(s@),
                None => self@.sub_type is None,
            },
    {
        match &self.sub_type {
            Some(s) => Some(s.as_str()),
            None => None,
        }
    }
}

/// The position of a metric set among a model's metric sets.
#[derive(Copy, Clone, Ord, PartialOrd, Eq, PartialEq, Debug)]
pub struct MetricSetIndex(usize);

impl View for MetricSetIndex {
    type V = usize;

    closed spec fn view(&self) -> usize {
        self.0
    }
}

impl MetricSetIndex {
    pub fn new(idx: usize) -> (r: Self)
        ensures
            r@ == idx,
    {
        MetricSetIndex(idx)
    }
}

impl std::ops::Deref for MetricSetIndex {
    type Target = usize;

    fn deref(&self) -> (r: &usize)
        ensures
            *r == self@,
    {
        &self.0
    }
}

} // verus!
