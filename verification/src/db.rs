//! What is recorded of a measurement.

use crate::number::double::{Double, Real};
use crate::number::shortest::shortest_text;
use crate::numeral::{i64_text, int_text};
use crate::text::{clone_opt, opt_view};
use vstd::prelude::*;

verus! {

/// A recorded value.
#[derive(Debug)]
pub enum KvValue {
    Int(i64),
    Real(Double),
    Text(String),
}

/// The contents of a [`KvValue`].
pub ghost enum ValueView {
    Int(int),
    Real(Real),
    Text(Seq<char>),
}

impl View for KvValue {
    type V = ValueView;

    open spec fn view(&self) -> ValueView {
        match self {
            KvValue::Int(n) => ValueView::Int(*n as int),
            KvValue::Real(x) => ValueView::Real(x@),
            KvValue::Text(t) => ValueView::Text(t@),
        }
    }
}

/// A value as text.
pub open spec fn value_text(v: ValueView) -> Seq<char> {
    match v {
        ValueView::Int(n) => int_text(n),
        ValueView::Real(x) => shortest_text(x),
        ValueView::Text(t) => t,
    }
}

impl KvValue {
    /// Writes the value as text.
    pub fn to_text(&self) -> (r: String)
        ensures
            r@ == value_text(self@),
    {
        match self {
            KvValue::Int(n) => i64_text(*n),
            KvValue::Real(x) => x.shortest(),
            KvValue::Text(t) => t.clone(),
        }
    }

    /// A copy of the value.
    pub fn copy(&self) -> (r: KvValue)
        ensures
            r@ == self@,
    {
        match self {
            KvValue::Int(n) => KvValue::Int(*n),
            KvValue::Real(x) => KvValue::Real(*x),
            KvValue::Text(t) => KvValue::Text(t.clone()),
        }
    }
}

/// A named value.
#[derive(Debug)]
pub struct KvPair {
    pub key: String,
    pub value: KvValue,
}

/// The contents of a [`KvPair`].
pub ghost struct PairView {
    pub key: Seq<char>,
    pub value: ValueView,
}

impl View for KvPair {
    type V = PairView;

    open spec fn view(&self) -> PairView {
        PairView { key: self.key@, value: self.value@ }
    }
}

/// The contents of a list of named values.
pub open spec fn pair_views(v: Seq<KvPair>) -> Seq<PairView> {
    v.map_values(|p: KvPair| p@)
}

impl KvPair {
    /// A named integer.
    pub fn of_int(key: &str, value: i64) -> (r: KvPair)
        ensures
            r@ == (PairView { key: key@, value: ValueView::Int(value as int) }),
    {
        KvPair { key: key.to_owned(), value: KvValue::Int(value) }
    }

    /// A named number.
    pub fn of_real(key: &str, value: Double) -> (r: KvPair)
        ensures
            r@ == (PairView { key: key@, value: ValueView::Real(value@) }),
    {
        KvPair { key: key.to_owned(), value: KvValue::Real(value) }
    }

    /// A named text.
    pub fn of_text(key: &str, value: &str) -> (r: KvPair)
        ensures
            r@ == (PairView { key: key@, value: ValueView::Text(value@) }),
    {
        KvPair { key: key.to_owned(), value: KvValue::Text(value.to_owned()) }
    }

    /// A copy of the pair.
    pub fn copy(&self) -> (r: KvPair)
        ensures
            r@ == self@,
    {
        KvPair { key: self.key.clone(), value: self.value.copy() }
    }
}

/// Appends copies of named values to others.
pub fn append_pairs(out: &mut Vec<KvPair>, more: &[KvPair])
    ensures
        pair_views(final(out)@) == pair_views(old(out)@) + pair_views(more@),
{
    let ghost start = pair_views(out@);
    let mut i: usize = 0;
    assert(pair_views(out@) =~= start + pair_views(more@).take(0));
    while i < more.len()
        invariant
            i <= more@.len(),
            pair_views(out@) == start + pair_views(more@).take(i as int),
        decreases more@.len() - i,
    {
        let ghost before = pair_views(out@);
        let pair = more[i].copy();
        out.push(pair);
        assert(pair_views(out@) =~= before.push(pair@));
        assert(pair@ == pair_views(more@)[i as int]);
        i += 1;
        assert(pair_views(out@) =~= start + pair_views(more@).take(i as int));
    }
    assert(pair_views(more@).take(i as int) =~= pair_views(more@));
}

/// The spread of repeated measurements, in milliseconds.
#[derive(Clone, Copy, Debug, PartialEq, Eq, Structural)]
pub struct Distribution {
    pub samples: i64,
    pub min_ms: i64,
    pub p50_ms: i64,
    pub p95_ms: i64,
    pub max_ms: i64,
}

/// What was measured of one function.
#[derive(Debug)]
pub struct HotpathFunction {
    pub section: String,
    pub description: Option<String>,
    pub ordinal: i64,
    pub name: String,
    pub calls: Option<i64>,
    pub avg: Option<String>,
    pub total: Option<String>,
    pub percent_total: Option<String>,
    pub p50: Option<String>,
    pub p95: Option<String>,
    pub p99: Option<String>,
}

/// The contents of a [`HotpathFunction`].
pub ghost struct FunctionView {
    pub section: Seq<char>,
    pub description: Option<Seq<char>>,
    pub ordinal: int,
    pub name: Seq<char>,
    pub calls: Option<i64>,
    pub avg: Option<Seq<char>>,
    pub total: Option<Seq<char>>,
    pub percent_total: Option<Seq<char>>,
    pub p50: Option<Seq<char>>,
    pub p95: Option<Seq<char>>,
    pub p99: Option<Seq<char>>,
}

impl View for HotpathFunction {
    type V = FunctionView;

    open spec fn view(&self) -> FunctionView {
        FunctionView {
            section: self.section@,
            description: opt_view(self.description),
            ordinal: self.ordinal as int,
            name: self.name@,
            calls: self.calls,
            avg: opt_view(self.avg),
            total: opt_view(self.total),
            percent_total: opt_view(self.percent_total),
            p50: opt_view(self.p50),
            p95: opt_view(self.p95),
            p99: opt_view(self.p99),
        }
    }
}

/// What was measured of one thread.
#[derive(Debug)]
pub struct HotpathThread {
    pub name: String,
    pub status: Option<String>,
    pub cpu_percent: Option<String>,
    pub cpu_percent_max: Option<String>,
    pub cpu_percent_avg: Option<String>,
    pub alloc_bytes: Option<String>,
    pub dealloc_bytes: Option<String>,
    pub mem_diff: Option<String>,
}

/// The contents of a [`HotpathThread`].
pub ghost struct ThreadView {
    pub name: Seq<char>,
    pub status: Option<Seq<char>>,
    pub cpu_percent: Option<Seq<char>>,
    pub cpu_percent_max: Option<Seq<char>>,
    pub cpu_percent_avg: Option<Seq<char>>,
    pub alloc_bytes: Option<Seq<char>>,
    pub dealloc_bytes: Option<Seq<char>>,
    pub mem_diff: Option<Seq<char>>,
}

impl View for HotpathThread {
    type V = ThreadView;

    open spec fn view(&self) -> ThreadView {
        ThreadView {
            name: self.name@,
            status: opt_view(self.status),
            cpu_percent: opt_view(self.cpu_percent),
            cpu_percent_max: opt_view(self.cpu_percent_max),
            cpu_percent_avg: opt_view(self.cpu_percent_avg),
            alloc_bytes: opt_view(self.alloc_bytes),
            dealloc_bytes: opt_view(self.dealloc_bytes),
            mem_diff: opt_view(self.mem_diff),
        }
    }
}

/// A profile: functions, threads, and figures over all threads.
#[derive(Debug)]
pub struct HotpathData {
    pub functions: Vec<HotpathFunction>,
    pub threads: Vec<HotpathThread>,
    pub thread_summary: Vec<KvPair>,
}

/// The contents of a [`HotpathData`].
pub ghost struct HotpathView {
    pub functions: Seq<FunctionView>,
    pub threads: Seq<ThreadView>,
    pub thread_summary: Seq<PairView>,
}

/// The contents of a list of functions.
pub open spec fn function_views(v: Seq<HotpathFunction>) -> Seq<FunctionView> {
    v.map_values(|f: HotpathFunction| f@)
}

/// The contents of a list of borrowed functions.
pub open spec fn function_refs(v: Seq<&HotpathFunction>) -> Seq<FunctionView> {
    v.map_values(|f: &HotpathFunction| f@)
}

/// The contents of a list of threads.
pub open spec fn thread_views(v: Seq<HotpathThread>) -> Seq<ThreadView> {
    v.map_values(|t: HotpathThread| t@)
}

impl View for HotpathData {
    type V = HotpathView;

    open spec fn view(&self) -> HotpathView {
        HotpathView {
            functions: function_views(self.functions@),
            threads: thread_views(self.threads@),
            thread_summary: pair_views(self.thread_summary@),
        }
    }
}

impl HotpathFunction {
    /// A copy of the entry.
    pub fn copy(&self) -> (r: HotpathFunction)
        ensures
            r@ == self@,
    {
        HotpathFunction {
            section: self.section.clone(),
            description: clone_opt(&self.description),
            ordinal: self.ordinal,
            name: self.name.clone(),
            calls: self.calls,
            avg: clone_opt(&self.avg),
            total: clone_opt(&self.total),
            percent_total: clone_opt(&self.percent_total),
            p50: clone_opt(&self.p50),
            p95: clone_opt(&self.p95),
            p99: clone_opt(&self.p99),
        }
    }
}

impl HotpathThread {
    /// A copy of the entry.
    pub fn copy(&self) -> (r: HotpathThread)
        ensures
            r@ == self@,
    {
        HotpathThread {
            name: self.name.clone(),
            status: clone_opt(&self.status),
            cpu_percent: clone_opt(&self.cpu_percent),
            cpu_percent_max: clone_opt(&self.cpu_percent_max),
            cpu_percent_avg: clone_opt(&self.cpu_percent_avg),
            alloc_bytes: clone_opt(&self.alloc_bytes),
            dealloc_bytes: clone_opt(&self.dealloc_bytes),
            mem_diff: clone_opt(&self.mem_diff),
        }
    }
}

impl HotpathData {
    /// A copy of the profile.
    pub fn copy(&self) -> (r: HotpathData)
        ensures
            r@ == self@,
    {
        let mut functions: Vec<HotpathFunction> = Vec::new();
        let mut i: usize = 0;
        while i < self.functions.len()
            invariant
                i <= self.functions@.len(),
                functions@.len() == i,
                forall|k: int| 0 <= k < i ==> (#[trigger] functions@[k])@ == self.functions@[k]@,
            decreases self.functions@.len() - i,
        {
            functions.push(self.functions[i].copy());
            i += 1;
        }
        let mut threads: Vec<HotpathThread> = Vec::new();
        let mut j: usize = 0;
        while j < self.threads.len()
            invariant
                j <= self.threads@.len(),
                threads@.len() == j,
                forall|k: int| 0 <= k < j ==> (#[trigger] threads@[k])@ == self.threads@[k]@,
            decreases self.threads@.len() - j,
        {
            threads.push(self.threads[j].copy());
            j += 1;
        }
        let mut thread_summary: Vec<KvPair> = Vec::new();
        append_pairs(&mut thread_summary, &self.thread_summary);
        assert(function_views(functions@) =~= function_views(self.functions@));
        assert(thread_views(threads@) =~= thread_views(self.threads@));
        assert(pair_views(thread_summary@) =~= pair_views(self.thread_summary@));
        HotpathData { functions, threads, thread_summary }
    }
}

} // verus!
