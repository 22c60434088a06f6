//! The collectors that make up a report, and the run of all of them over a
//! corpus.

use vstd::prelude::*;
use vstd::string::*;
use crate::collector::{
    CollectError, Family, FileAst, MetricCollector, VisitorCollector, all_suit, collect_metric,
    contents, measure_all, reports,
};
use crate::metrics::{
    ComplexityStats, Enums, Files, FnArgsCount, ImplLcom4, MacroStats, StatementSize, Structs,
    TraitDefinitions, VisitorAvgMethodDepth, basic_enums, basic_files, basic_structs, basic_traits,
    complexity, fn_arg_count, fn_depth, if_count, macros, methods, stmt_size,
};
use crate::metrics::complexity::all_scorable;
use crate::metrics::fn_depth::well_formed;
use crate::metrics::if_count::IfCountCollector;
use crate::monoid::{Monoid, lemma_always_reducible, models_of};
use crate::observer::Unaggregated;
use crate::syntax::Node;
use crate::value::{MetricValue, Sample};
use crate::walk::{entering, leaving};

verus! {

/// A collector of one of the kinds that a report is made of.
pub enum Collector {
    FnDepth(VisitorCollector<VisitorAvgMethodDepth<Unaggregated>>),
    IfCount(IfCountCollector),
    FnArgCount(VisitorCollector<FnArgsCount<Unaggregated>>),
    Structs(VisitorCollector<Structs<Unaggregated>>),
    Enums(VisitorCollector<Enums<Unaggregated>>),
    TraitDef(VisitorCollector<TraitDefinitions<Unaggregated>>),
    Complexity(VisitorCollector<ComplexityStats<Unaggregated>>),
    StatementSize(VisitorCollector<StatementSize<Unaggregated>>),
    PerFile(VisitorCollector<Files<Unaggregated>>),
    Lcom4(VisitorCollector<ImplLcom4<Unaggregated>>),
    Macro(VisitorCollector<MacroStats<Unaggregated>>),
}

/// A collector, whatever metric it collects: it has a name, and it reports
/// a value of a corpus.
pub struct MetricCollectorBox(pub Collector);

/// What `collector` reports of `files`, where any two metrics of its family
/// can be combined: the metric of each file, taken by itself, and these
/// combined.
fn collect_free<V: Family>(collector: &VisitorCollector<V>, files: &Vec<FileAst>) -> (value:
    Result<MetricValue<Sample>, CollectError>)
    requires
        forall|a: V::Model, b: V::Model| #[trigger] V::fits(a, b),
    ensures
        value is Ok <==> all_suit(collector, contents(files@)),
        value is Ok ==> reports(collector, contents(files@), value->Ok_0),
        value is Err ==> value->Err_0 == collector.reason(),
{
    proof {
        let trees = contents(files@);
        assert forall|metrics: Seq<V>| #[trigger]
            measure_all(collector, trees, metrics) implies collector.combinable(metrics) by {
            lemma_always_reducible::<V>(models_of(metrics));
            assert forall|i: int| 0 <= i < metrics.len() implies (#[trigger] metrics[i]).wf() by {
                assert(collector.measures(trees[i], metrics[i]));
            }
        }
    }
    collect_metric(collector, files)
}

impl MetricCollectorBox {
    /// The name under which the metric is reported.
    pub open spec fn name_text(&self) -> Seq<char> {
        match self.0 {
            Collector::FnDepth(c) => c.name_text(),
            Collector::IfCount(c) => c.name_text(),
            Collector::FnArgCount(c) => c.name_text(),
            Collector::Structs(c) => c.name_text(),
            Collector::Enums(c) => c.name_text(),
            Collector::TraitDef(c) => c.name_text(),
            Collector::Complexity(c) => c.name_text(),
            Collector::StatementSize(c) => c.name_text(),
            Collector::PerFile(c) => c.name_text(),
            Collector::Lcom4(c) => c.name_text(),
            Collector::Macro(c) => c.name_text(),
        }
    }

    /// Whether the metric of each of the trees `files` is small enough to be
    /// held.
    pub open spec fn suits(&self, files: Seq<Node>) -> bool {
        match self.0 {
            Collector::FnDepth(c) => all_suit(&c, files),
            Collector::IfCount(c) => all_suit(&c, files),
            Collector::FnArgCount(c) => all_suit(&c, files),
            Collector::Structs(c) => all_suit(&c, files),
            Collector::Enums(c) => all_suit(&c, files),
            Collector::TraitDef(c) => all_suit(&c, files),
            Collector::Complexity(c) => all_suit(&c, files),
            Collector::StatementSize(c) => all_suit(&c, files),
            Collector::PerFile(c) => all_suit(&c, files),
            Collector::Lcom4(c) => all_suit(&c, files),
            Collector::Macro(c) => all_suit(&c, files),
        }
    }

    /// Why a file does not suit this collector, where one does not.
    pub open spec fn reason(&self) -> CollectError {
        match self.0 {
            Collector::FnDepth(c) => c.reason(),
            Collector::IfCount(c) => c.reason(),
            Collector::FnArgCount(c) => c.reason(),
            Collector::Structs(c) => c.reason(),
            Collector::Enums(c) => c.reason(),
            Collector::TraitDef(c) => c.reason(),
            Collector::Complexity(c) => c.reason(),
            Collector::StatementSize(c) => c.reason(),
            Collector::PerFile(c) => c.reason(),
            Collector::Lcom4(c) => c.reason(),
            Collector::Macro(c) => c.reason(),
        }
    }

    /// Whether `value` is what this collector reports of the trees `files`.
    pub open spec fn reported(&self, files: Seq<Node>, value: MetricValue<Sample>) -> bool {
        match self.0 {
            Collector::FnDepth(c) => reports(&c, files, value),
            Collector::IfCount(c) => reports(&c, files, value),
            Collector::FnArgCount(c) => reports(&c, files, value),
            Collector::Structs(c) => reports(&c, files, value),
            Collector::Enums(c) => reports(&c, files, value),
            Collector::TraitDef(c) => reports(&c, files, value),
            Collector::Complexity(c) => reports(&c, files, value),
            Collector::StatementSize(c) => reports(&c, files, value),
            Collector::PerFile(c) => reports(&c, files, value),
            Collector::Lcom4(c) => reports(&c, files, value),
            Collector::Macro(c) => reports(&c, files, value),
        }
    }

    /// The name under which the metric is reported.
    pub fn name(&self) -> (name: &'static str)
        ensures
            name@ == self.name_text(),
    {
        match &self.0 {
            Collector::FnDepth(c) => c.name(),
            Collector::IfCount(c) => c.name(),
            Collector::FnArgCount(c) => c.name(),
            Collector::Structs(c) => c.name(),
            Collector::Enums(c) => c.name(),
            Collector::TraitDef(c) => c.name(),
            Collector::Complexity(c) => c.name(),
            Collector::StatementSize(c) => c.name(),
            Collector::PerFile(c) => c.name(),
            Collector::Lcom4(c) => c.name(),
            Collector::Macro(c) => c.name(),
        }
    }

    /// What this collector reports of `files`; its error where a file does
    /// not suit it.
    pub fn collect_metric(&self, files: &Vec<FileAst>) -> (value: Result<
        MetricValue<Sample>,
        CollectError,
    >)
        ensures
            value is Ok <==> self.suits(contents(files@)),
            value is Ok ==> self.reported(contents(files@), value->Ok_0),
            value is Err ==> value->Err_0 == self.reason(),
    {
        match &self.0 {
            Collector::FnDepth(c) => collect_free(c, files),
            Collector::IfCount(c) => collect_metric(c, files),
            Collector::FnArgCount(c) => collect_free(c, files),
            Collector::Structs(c) => collect_free(c, files),
            Collector::Enums(c) => collect_free(c, files),
            Collector::TraitDef(c) => collect_free(c, files),
            Collector::Complexity(c) => collect_free(c, files),
            Collector::StatementSize(c) => collect_free(c, files),
            Collector::PerFile(c) => collect_free(c, files),
            Collector::Lcom4(c) => collect_free(c, files),
            Collector::Macro(c) => collect_free(c, files),
        }
    }

    /// This collector.
    pub fn make_box(self) -> (boxed: Self)
        ensures
            boxed == self,
    {
        self
    }
}

/// The names of the collectors of a report, in their order.
pub open spec fn collector_names() -> Seq<Seq<char>> {
    seq![
        "fn_depth"@,
        "if_count"@,
        "fn_arg_count"@,
        "structs"@,
        "enums"@,
        "trait_def"@,
        "complexity"@,
        "statement_size"@,
        "per_file"@,
        "lcom4_per_impl_block"@,
        "macro"@,
    ]
}

/// No two collectors of a report have the same name.
pub proof fn law_names_unique(i: int, j: int)
    requires
        0 <= i < j < collector_names().len(),
    ensures
        collector_names()[i] != collector_names()[j],
{
    reveal_strlit("fn_depth");
    reveal_strlit("if_count");
    reveal_strlit("fn_arg_count");
    reveal_strlit("structs");
    reveal_strlit("enums");
    reveal_strlit("trait_def");
    reveal_strlit("complexity");
    reveal_strlit("statement_size");
    reveal_strlit("per_file");
    reveal_strlit("lcom4_per_impl_block");
    reveal_strlit("macro");
    let names = collector_names();
    assert(names[0].len() == 8 && names[0][0] == 'f');
    assert(names[1].len() == 8 && names[1][0] == 'i');
    assert(names[2].len() == 12);
    assert(names[3].len() == 7);
    assert(names[4].len() == 5 && names[4][0] == 'e');
    assert(names[5].len() == 9);
    assert(names[6].len() == 10);
    assert(names[7].len() == 14);
    assert(names[8].len() == 8 && names[8][0] == 'p');
    assert(names[9].len() == 20);
    assert(names[10].len() == 5 && names[10][0] == 'm');
}

/// Whether `collectors` are the collectors of a report: each of its kind,
/// under its name, in its place.
pub open spec fn is_registry(collectors: Seq<MetricCollectorBox>) -> bool {
    &&& collectors.len() == collector_names().len()
    &&& forall|i: int|
        0 <= i < collectors.len() ==> (#[trigger] collectors[i]).name_text() == collector_names()[i]
    &&& collectors[0].0 is FnDepth
    &&& collectors[1].0 is IfCount
    &&& collectors[2].0 is FnArgCount
    &&& collectors[3].0 is Structs
    &&& collectors[4].0 is Enums
    &&& collectors[5].0 is TraitDef
    &&& collectors[6].0 is Complexity
    &&& collectors[7].0 is StatementSize
    &&& collectors[8].0 is PerFile
    &&& collectors[9].0 is Lcom4
    &&& collectors[10].0 is Macro
}

/// Whether the cognitive complexity of each function of each of the trees
/// `files` is small enough to be held.
pub open spec fn scorable_corpus(files: Seq<Node>) -> bool {
    forall|i: int| 0 <= i < files.len() ==> all_scorable(entering(#[trigger] files[i]))
}

/// The collectors of a report.
pub fn get_metric_collectors() -> (collectors: Vec<MetricCollectorBox>)
    ensures
        is_registry(collectors@),
{
    let mut collectors: Vec<MetricCollectorBox> = Vec::new();
    collectors.push(fn_depth::make_collector());
    collectors.push(if_count::make_collector());
    collectors.push(fn_arg_count::make_collector());
    collectors.push(basic_structs::make_collector());
    collectors.push(basic_enums::make_collector());
    collectors.push(basic_traits::make_collector());
    collectors.push(complexity::make_collector());
    collectors.push(stmt_size::make_collector());
    collectors.push(basic_files::make_collector());
    collectors.push(methods::make_collector());
    collectors.push(macros::make_collector());
    collectors
}

/// Whether `metrics` holds, for each of `collectors` in its place, its name
/// and what it reports of the trees `files`.
pub open spec fn collected(
    collectors: Seq<MetricCollectorBox>,
    files: Seq<Node>,
    metrics: Seq<(String, MetricValue<Sample>)>,
) -> bool {
    &&& metrics.len() == collectors.len()
    &&& forall|i: int|
        0 <= i < collectors.len() ==> (#[trigger] metrics[i]).0@ == collectors[i].name_text()
            && collectors[i].reported(files, metrics[i].1)
}

/// The first of `collectors` that a file of `files` does not suit, if
/// there is one.
pub open spec fn first_unfit(collectors: Seq<MetricCollectorBox>, files: Seq<Node>) -> Option<int>
    decreases collectors.len(),
{
    if collectors.len() == 0 {
        None
    } else {
        match first_unfit(collectors.drop_last(), files) {
            Some(i) => Some(i),
            None => if collectors.last().suits(files) {
                None
            } else {
                Some(collectors.len() - 1)
            },
        }
    }
}

/// What each of `collectors` reports of `files`, under its name; the error
/// of the first collector that a file does not suit, where there is one.
pub fn collect_with(collectors: &Vec<MetricCollectorBox>, files: &Vec<FileAst>) -> (metrics: Result<
    Vec<(String, MetricValue<Sample>)>,
    CollectError,
>)
    ensures
        match metrics {
            Ok(found) => first_unfit(collectors@, contents(files@)) is None && collected(
                collectors@,
                contents(files@),
                found@,
            ),
            Err(error) => match first_unfit(collectors@, contents(files@)) {
                Some(i) => 0 <= i < collectors@.len() && error == collectors@[i].reason(),
                None => false,
            },
        },
{
    let mut metrics: Vec<(String, MetricValue<Sample>)> = Vec::new();
    let ghost trees = contents(files@);
    let mut i: usize = 0;
    while i < collectors.len()
        invariant
            i <= collectors@.len(),
            trees == contents(files@),
            metrics@.len() == i,
            first_unfit(collectors@.take(i as int), trees) is None,
            forall|k: int|
                0 <= k < i ==> (#[trigger] metrics@[k]).0@ == collectors@[k].name_text()
                    && collectors@[k].reported(trees, metrics@[k].1),
        decreases collectors@.len() - i,
    {
        let collector = &collectors[i];
        proof {
            assert(collectors@.take(i + 1).drop_last() =~= collectors@.take(i as int));
            assert(collectors@.take(i + 1).last() == collectors@[i as int]);
        }
        match collector.collect_metric(files) {
            Ok(value) => {
                let name = String::from_str(collector.name());
                metrics.push((name, value));
            },
            Err(error) => {
                proof {
                    lemma_first_unfit_stays(collectors@, trees, i + 1);
                }
                return Err(error);
            },
        }
        i += 1;
    }
    proof {
        assert(collectors@.take(collectors@.len() as int) =~= collectors@);
    }
    Ok(metrics)
}

/// The first collector that does not suit among some is the first among
/// all.
proof fn lemma_first_unfit_stays(collectors: Seq<MetricCollectorBox>, files: Seq<Node>, upto: int)
    requires
        0 <= upto <= collectors.len(),
        first_unfit(collectors.take(upto), files) is Some,
    ensures
        first_unfit(collectors, files) == first_unfit(collectors.take(upto), files),
    decreases collectors.len() - upto,
{
    if upto < collectors.len() {
        assert(collectors.take(upto + 1).drop_last() =~= collectors.take(upto));
        lemma_first_unfit_stays(collectors, files, upto + 1);
    } else {
        assert(collectors.take(upto) =~= collectors);
    }
}

/// Whether each function and closure of each of the trees `files` has a
/// block of its own.
pub open spec fn well_formed_corpus(files: Seq<Node>) -> bool {
    forall|i: int| 0 <= i < files.len() ==> well_formed(leaving(#[trigger] files[i]))
}

/// What the collectors of a report report of `files`, each under its name.
///
/// The error `Malformed` where a function of a file has no body; else the
/// error `TooLarge` where the cognitive complexity of a function is too
/// large to be held.
pub fn collect_file_metrics(files: &Vec<FileAst>) -> (metrics: Result<
    Vec<(String, MetricValue<Sample>)>,
    CollectError,
>)
    ensures
        match metrics {
            Ok(found) => well_formed_corpus(contents(files@)) && scorable_corpus(contents(files@))
                && exists|collectors: Seq<MetricCollectorBox>| #[trigger]
                is_registry(collectors) && collected(collectors, contents(files@), found@),
            Err(CollectError::Malformed) => !well_formed_corpus(contents(files@)),
            Err(CollectError::TooLarge) => well_formed_corpus(contents(files@)) && !scorable_corpus(
                contents(files@),
            ),
        },
{
    let collectors = get_metric_collectors();
    let metrics = collect_with(&collectors, files);
    proof {
        let trees = contents(files@);
        lemma_registry_unfit(collectors@, trees, collectors@.len() as int);
        assert(collectors@.take(collectors@.len() as int) =~= collectors@);
        if metrics is Ok {
            assert(is_registry(collectors@));
        }
    }
    metrics
}

/// The first collector of a report that a file does not suit is that of
/// the depth of functions, where a tree is not well formed; else that of
/// the cognitive complexity, where a score is too large.
proof fn lemma_registry_unfit(collectors: Seq<MetricCollectorBox>, files: Seq<Node>, upto: int)
    requires
        is_registry(collectors),
        0 <= upto <= collectors.len(),
    ensures
        first_unfit(collectors.take(upto), files) == if upto >= 1 && !well_formed_corpus(files) {
            Some(0int)
        } else if upto >= 7 && !scorable_corpus(files) {
            Some(6int)
        } else {
            None
        },
        collectors[0].reason() == CollectError::Malformed,
        collectors[6].reason() == CollectError::TooLarge,
    decreases upto,
{
    if upto > 0 {
        lemma_registry_unfit(collectors, files, upto - 1);
        assert(collectors.take(upto).drop_last() =~= collectors.take(upto - 1));
        assert(collectors.take(upto).last() == collectors[upto - 1]);
        lemma_suits(collectors, files, upto - 1);
    }
}

/// Of the collectors of a report, that of the depth of functions wants
/// well formed trees, that of the cognitive complexity wants scores that
/// can be held, and every file suits the others.
proof fn lemma_suits(collectors: Seq<MetricCollectorBox>, files: Seq<Node>, i: int)
    requires
        is_registry(collectors),
        0 <= i < collectors.len(),
    ensures
        i != 6 && i != 0 ==> collectors[i].suits(files),
        i == 6 ==> (collectors[i].suits(files) <==> scorable_corpus(files)),
        i == 0 ==> (collectors[i].suits(files) <==> well_formed_corpus(files)),
{
    if i == 6 {
        let c = collectors[6].0->Complexity_0;
        if all_suit(&c, files) {
            assert forall|k: int| 0 <= k < files.len() implies all_scorable(
                entering(#[trigger] files[k]),
            ) by {
                assert(c.suits(files[k]));
            }
        }
    }
    if i == 0 {
        let c = collectors[0].0->FnDepth_0;
        if all_suit(&c, files) {
            assert forall|k: int| 0 <= k < files.len() implies well_formed(
                leaving(#[trigger] files[k]),
            ) by {
                assert(c.suits(files[k]));
            }
        }
    }
}

} // verus!
