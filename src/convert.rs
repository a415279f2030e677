//! Conversions between the `.aeon`, `.bnet` and SBML model formats, and from
//! each of them to a document. Parsing and writing the formats is the work of
//! `biodivine_lib_param_bn`; what travels beside the model (its layout and its
//! metadata directives) is read here from the source text.
use crate::document::{document_matches, net_view, network_to_document, Document, Monotonicity, Network, Regulation};
use crate::layout::{
    encode_entries, encode_layout, entries_map, layout_of, read_layout, sorted_by_name, sorted_layout, Layout,
    LayoutEntry,
};
use crate::metadata::{extract_metadata, layout_to_metadata, metadata_of, position_tree};
use crate::text::{chars_of, string_of};
use biodivine_lib_param_bn::symbolic_async_graph::SymbolicAsyncGraph;
use biodivine_lib_param_bn::BooleanNetwork;
use biodivine_lib_param_bn::Monotonicity as BnMonotonicity;
use vstd::prelude::*;

verus! {

#[verifier::external_type_specification]
#[verifier::external_body]
pub struct ExBooleanNetwork(BooleanNetwork);

#[verifier::external_type_specification]
#[verifier::external_body]
pub struct ExSymbolicAsyncGraph(SymbolicAsyncGraph);

/// The `.aeon` parser accepts this text.
pub uninterp spec fn aeon_parses(text: Seq<char>) -> bool;

/// The network that the `.aeon` parser reads from this text.
pub uninterp spec fn aeon_network(text: Seq<char>) -> (Seq<Seq<char>>, Seq<Regulation>);

/// The message with which the `.aeon` parser refuses this text.
pub uninterp spec fn aeon_error(text: Seq<char>) -> Seq<char>;

/// The `.bnet` parser accepts this text.
pub uninterp spec fn bnet_parses(text: Seq<char>) -> bool;

/// The network that the `.bnet` parser reads from this text.
pub uninterp spec fn bnet_network(text: Seq<char>) -> (Seq<Seq<char>>, Seq<Regulation>);

/// The `.aeon` text of the network read from this `.bnet` text.
pub uninterp spec fn bnet_as_aeon(text: Seq<char>) -> Seq<char>;

/// The `.bnet` text of the network read from this `.aeon` text, where
/// `.bnet` can express it.
pub uninterp spec fn aeon_as_bnet(text: Seq<char>) -> Option<Seq<char>>;






/// The symbolic state space of the network of this `.aeon` text can be built.
pub uninterp spec fn graph_builds(text: Seq<char>) -> bool;

/// The network of this `.aeon` text has at least one instantiation.
pub uninterp spec fn has_instance(text: Seq<char>) -> bool;

/// Relies on `BooleanNetwork::variables`, `get_variable_name` and
/// `as_graph().regulations()`: the network's variables by index, its
/// regulations in the graph's order. Nothing is claimed of the result here;
/// the parsers that call it state what holds of the networks they build.
#[verifier::external_body]
fn network_model(bn: &BooleanNetwork) -> Network {
    let names = bn.variables().map(|v| bn.get_variable_name(v).clone()).collect();
    let regulations = bn.as_graph().regulations().map(|r| Regulation {
        regulator: r.get_regulator().into(),
        target: r.get_target().into(),
        observable: r.is_observable(),
        monotonicity: r.get_monotonicity().map(|m| match m {
            BnMonotonicity::Activation => Monotonicity::Activation,
            BnMonotonicity::Inhibition => Monotonicity::Inhibition,
        }),
    }).collect();
    Network { names, regulations }
}

/// Relies on `BooleanNetwork::try_from(&str)`, the `.aeon` parser, read
/// through `network_model`: the network, or the error, depends on the text
/// alone, and each of its error messages is non-empty text.
#[verifier::external_body]
fn parse_aeon(text: &str) -> (r: Result<(BooleanNetwork, Network), String>)
    ensures
        r is Ok == aeon_parses(text@),
        r matches Ok(p) ==> p.1.wf() && net_view(&p.1) == aeon_network(text@),
        r matches Err(e) ==> e@ == aeon_error(text@) && e@.len() > 0,
{
    let bn = BooleanNetwork::try_from(text)?;
    let model = network_model(&bn);
    Ok((bn, model))
}

/// Relies on `BooleanNetwork::try_from_bnet`, the `.bnet` parser, read
/// through `network_model`: whether it succeeds, and the network, depend on
/// the text alone; a regulation is added by the names of two variables of
/// the network; each error message is non-empty text.
#[verifier::external_body]
fn parse_bnet(text: &str) -> (r: Result<Network, String>)
    ensures
        r is Ok == bnet_parses(text@),
        r matches Ok(n) ==> n.wf() && net_view(&n) == bnet_network(text@),
        r matches Err(e) ==> e@.len() > 0,
{
    let bn = BooleanNetwork::try_from_bnet(text)?;
    Ok(network_model(&bn))
}

/// Relies on `BooleanNetwork::try_from_bnet` and `BooleanNetwork`'s
/// `Display`: the network of a `.bnet` text written as `.aeon`, or the
/// parser's error, which is non-empty text.
#[verifier::external_body]
fn bnet_aeon_text(text: &str) -> (r: Result<String, String>)
    ensures
        r is Ok == bnet_parses(text@),
        r matches Ok(s) ==> s@ == bnet_as_aeon(text@),
        r matches Err(e) ==> e@.len() > 0,
{
    Ok(BooleanNetwork::try_from_bnet(text)?.to_string())
}

/// Relies on `BooleanNetwork::try_from(&str)` and `to_bnet(false)`: the
/// network of an `.aeon` text written as `.bnet`; the parser's error where
/// the text does not parse, else `to_bnet`'s non-empty error where `.bnet`
/// cannot express the network.
#[verifier::external_body]
fn aeon_bnet_text(text: &str) -> (r: Result<String, String>)
    ensures
        !aeon_parses(text@) ==> r is Err,
        r matches Err(e) ==> aeon_parses(text@) || e@ == aeon_error(text@),
        r matches Err(e) ==> e@.len() > 0,
        aeon_parses(text@) ==> match r {
            Ok(s) => aeon_as_bnet(text@) == Some(s@),
            Err(_) => aeon_as_bnet(text@) is None,
        },
{
    BooleanNetwork::try_from(text)?.to_bnet(false)
}

/// An SBML model read into plain values: what `BooleanNetwork::try_from_sbml_strict`
/// gives, taken apart by the caller that makes that call.
pub struct SbmlModel {
    /// The network written as `.aeon`.
    pub aeon: String,
    pub network: Network,
    pub layout: Layout,
    /// The warnings of the import, in the order in which it gave them.
    pub warnings: Vec<String>,
}

/// The layout handed to the SBML writer, entry by entry.
pub open spec fn glyphs(es: Seq<LayoutEntry>) -> Seq<(Seq<char>, Seq<char>, Seq<char>)> {
    es.map_values(|e: LayoutEntry| (e.name@, e.x@, e.y@))
}

/// The SBML text of the network of this `.aeon` text, with these glyphs in this order.
pub uninterp spec fn aeon_sbml(text: Seq<char>, glyphs: Seq<(Seq<char>, Seq<char>, Seq<char>)>) -> Seq<char>;

/// The SBML text of the instantiation that the symbolic graph of this `.aeon`
/// text picks, with these glyphs in this order.
pub uninterp spec fn instance_sbml(
    text: Seq<char>,
    glyphs: Seq<(Seq<char>, Seq<char>, Seq<char>)>,
) -> Seq<char>;

/// Relies on `BooleanNetwork::try_from(&str)` and `to_sbml`, with the layout
/// given as numbers: each coordinate parses as `f64` (`is_coordinate`). The
/// writer walks the layout as a `HashMap`, in an order of its own.
#[verifier::external_body]
fn aeon_sbml_text(text: &str, layout: &Layout) -> (r: Result<String, String>)
    requires
        layout.coordinates_ok(),
    ensures
        r is Ok == aeon_parses(text@),
        r matches Err(e) ==> e@ == aeon_error(text@),
        r matches Ok(s) ==> exists|es: Seq<LayoutEntry>|
            entries_map(es) == layout@ && s@ == aeon_sbml(text@, glyphs(es)),
{
    let bn = BooleanNetwork::try_from(text)?;
    let map: std::collections::HashMap<String, (_, _)> = layout.entries.iter().map(
        |e| (e.name.clone(), (e.x.parse().unwrap(), e.y.parse().unwrap())),
    ).collect();
    Ok(bn.to_sbml(Some(&map)))
}

/// The symbolic state space of a network, the text the network was read
/// from, and whether its set of colors (instantiations) is empty.
pub struct InstanceGraph {
    graph: SymbolicAsyncGraph,
    source: String,
    no_instance: bool,
}

/// Relies on `BooleanNetwork::try_from(&str)`, `SymbolicAsyncGraph::new` and
/// `is_empty` on `unit_colors`: each depends on the text alone.
#[verifier::external_body]
fn instance_graph(text: &str) -> (r: Result<InstanceGraph, String>)
    ensures
        r is Ok == (aeon_parses(text@) && graph_builds(text@)),
        r matches Err(e) ==> aeon_parses(text@) || e@ == aeon_error(text@),
        r matches Ok(g) ==> g.no_instance == !has_instance(text@),
        r matches Ok(g) ==> g.source@ == text@,
{
    let graph = SymbolicAsyncGraph::new(&BooleanNetwork::try_from(text)?)?;
    let no_instance = biodivine_lib_param_bn::biodivine_std::traits::Set::is_empty(graph.unit_colors());
    Ok(InstanceGraph { graph, source: text.to_string(), no_instance })
}

/// Relies on `SymbolicAsyncGraph::pick_witness` on `unit_colors`, which
/// panics on an empty color set, and on `to_sbml` with the layout given as
/// numbers (`is_coordinate`), walked as a `HashMap`.
#[verifier::external_body]
fn witness_sbml_text(g: &InstanceGraph, layout: &Layout) -> (r: Option<String>)
    requires
        !g.no_instance,
        layout.coordinates_ok(),
    ensures
        r is Some,
        r matches Some(s) ==> exists|es: Seq<LayoutEntry>|
            entries_map(es) == layout@ && s@ == instance_sbml(g.source@, glyphs(es)),
{
    let witness = g.graph.pick_witness(g.graph.unit_colors());
    let map: std::collections::HashMap<String, (_, _)> = layout.entries.iter().map(
        |e| (e.name.clone(), (e.x.parse().unwrap(), e.y.parse().unwrap())),
    ).collect();
    Some(witness.to_sbml(Some(&map)))
}

/// Checks an `.aeon` text: `None` where it parses, the parser's error otherwise.
pub fn check_model(aeon_file: &str) -> (r: Option<String>)
    ensures
        r is None == aeon_parses(aeon_file@),
        r matches Some(e) ==> e@ == aeon_error(aeon_file@),
{
    match parse_aeon(aeon_file) {
        Ok(_) => None,
        Err(e) => Some(e),
    }
}

/// A model text followed by a blank line end and the directives of a layout.
pub fn aeon_with_layout(model: &str, layout: &Layout) -> (r: String)
    ensures
        r@ == model@ + seq!['\n'] + encode_entries(layout.entries@),
{
    let mut out = chars_of(model);
    out.push('\n');
    let directives = chars_of(encode_layout(layout).as_str());
    let ghost start = out@;
    let mut i: usize = 0;
    while i < directives.len()
        invariant
            i <= directives.len(),
            out@ == start + directives@.take(i as int),
        decreases directives.len() - i,
    {
        out.push(directives[i]);
        i += 1;
        assert(out@ =~= start + directives@.take(i as int));
    }
    assert(directives@.take(directives.len() as int) =~= directives@);
    string_of(out.as_slice())
}

/// The same layout with each name in one entry only, the last entry for a
/// name winning.
pub fn distinct_layout(layout: &Layout) -> (r: Layout)
    ensures
        r.wf(),
        r@ == layout@,
{
    let mut out = Layout::new();
    let mut i: usize = 0;
    let ghost s = layout.entries@;
    assert(s.take(0) =~= Seq::<LayoutEntry>::empty());
    while i < layout.entries.len()
        invariant
            s == layout.entries@,
            i <= s.len(),
            out.wf(),
            out@ == entries_map(s.take(i as int)),
        decreases s.len() - i,
    {
        let e = &layout.entries[i];
        out.insert(e.name.clone(), e.x.clone(), e.y.clone());
        assert(s.take(i + 1).drop_last() =~= s.take(i as int));
        i += 1;
    }
    assert(s.take(s.len() as int) =~= s);
    out
}

/// Converts an imported SBML model to `.aeon`: the model's `.aeon` text, a
/// line end, then the layout as position directives in increasing order of
/// name. An import error comes back as it is.
pub fn sbml_to_aeon(imported: Result<SbmlModel, String>) -> (r: Result<String, String>)
    ensures
        imported matches Err(e) ==> (r matches Err(f) && f@ == e@),
        imported matches Ok(m) ==> (r matches Ok(s) && exists|es: Seq<LayoutEntry>|
            sorted_by_name(es) && entries_map(es) == m.layout@ && s@ == m.aeon@ + seq!['\n']
                + encode_entries(es)),
{
    match imported {
        Ok(m) => Ok(aeon_with_layout(m.aeon.as_str(), &sorted_layout(&distinct_layout(&m.layout)))),
        Err(e) => Err(e),
    }
}

/// Converts `.aeon` to SBML, carrying the layout of the `.aeon` text.
pub fn aeon_to_sbml(aeon_string: &str) -> (r: Result<String, String>)
    ensures
        r is Ok == aeon_parses(aeon_string@),
        r matches Err(e) ==> e@ == aeon_error(aeon_string@),
        r matches Ok(s) ==> exists|es: Seq<LayoutEntry>|
            entries_map(es) == layout_of(aeon_string@) && s@ == aeon_sbml(aeon_string@, glyphs(es)),
{
    let layout = read_layout(aeon_string);
    aeon_sbml_text(aeon_string, &layout)
}

/// Converts `.aeon` to SBML with one instantiation of the model's parameters,
/// carrying the layout of the `.aeon` text. Fails where the text does not
/// parse (with the parser's error), where its state space cannot be built,
/// and where the model has no instantiation.
pub fn aeon_to_sbml_instantiated(aeon_string: &str) -> (r: Result<String, String>)
    ensures
        r is Ok == (aeon_parses(aeon_string@) && graph_builds(aeon_string@) && has_instance(
            aeon_string@,
        )),
        !aeon_parses(aeon_string@) ==> (r matches Err(e) && e@ == aeon_error(aeon_string@)),
        r matches Ok(s) ==> exists|es: Seq<LayoutEntry>|
            entries_map(es) == layout_of(aeon_string@) && s@ == instance_sbml(
                aeon_string@,
                glyphs(es),
            ),
{
    let graph = match instance_graph(aeon_string) {
        Ok(g) => g,
        Err(e) => return Err(e),
    };
    if graph.no_instance {
        return Err(string_of(
            ['T', 'h', 'e', ' ', 'm', 'o', 'd', 'e', 'l', ' ', 'h', 'a', 's', ' ', 'n', 'o', ' ',
                'v', 'a', 'l', 'i', 'd', ' ', 'i', 'n', 's', 't', 'a', 'n', 'c', 'e', '.'].as_slice(),
        ));
    }
    let layout = read_layout(aeon_string);
    match witness_sbml_text(&graph, &layout) {
        Some(s) => Ok(s),
        None => Err(String::new()),
    }
}

/// Converts `.bnet` to `.aeon`.
pub fn bnet_to_aeon(bnet_string: &str) -> (r: Result<String, String>)
    ensures
        r is Ok == bnet_parses(bnet_string@),
        r matches Ok(s) ==> s@ == bnet_as_aeon(bnet_string@),
        r matches Err(e) ==> e@.len() > 0,
{
    bnet_aeon_text(bnet_string)
}

/// Converts `.aeon` to `.bnet`; fails also for a model that `.bnet` cannot express.
pub fn aeon_to_bnet(aeon_string: &str) -> (r: Result<String, String>)
    ensures
        r is Ok == (aeon_parses(aeon_string@) && aeon_as_bnet(aeon_string@) is Some),
        r matches Ok(s) ==> aeon_as_bnet(aeon_string@) == Some(s@),
        !aeon_parses(aeon_string@) ==> (r matches Err(e) && e@ == aeon_error(aeon_string@)),
        r matches Err(e) ==> e@.len() > 0,
{
    aeon_bnet_text(aeon_string)
}

/// What a conversion to a document gives: the document with the warnings
/// met on the way, or the errors that stopped it.
pub enum ConversionResult {
    Success { document: Document, warnings: Vec<String> },
    Failure { errors: Vec<String> },
}

/// The document of a network together with the metadata directives of the
/// text it was read from.
pub fn aeon_document(net: &Network, text: &str) -> (r: Document)
    ensures
        document_matches(net, &r),
        r.metadata.wf(),
        r.metadata@ == metadata_of(text@),
        r.metadata.branches@.len() == 0,
{
    let mut doc = network_to_document(net);
    doc.metadata = extract_metadata(text);
    doc
}

/// The document of a network whose metadata is the `position` subtree of a layout.
pub fn sbml_document(net: &Network, layout: &Layout) -> (r: Document)
    ensures
        document_matches(net, &r),
        r.metadata.wf(),
        r.metadata@ == position_tree(layout@),
        r.metadata.branch_paths() == seq![seq![crate::metadata::word_position()]],
{
    let mut doc = network_to_document(net);
    doc.metadata = layout_to_metadata(layout);
    doc
}

fn failure(error: String) -> (r: ConversionResult)
    ensures
        r matches ConversionResult::Failure { errors } && errors@ == seq![error],
{
    let mut errors: Vec<String> = Vec::new();
    errors.push(error);
    assert(errors@ =~= seq![error]);
    ConversionResult::Failure { errors }
}

/// Reads a `.bnet` text into a document with empty metadata.
pub fn read_bnet_model(model_str: &str) -> (r: ConversionResult)
    ensures
        match r {
            ConversionResult::Success { document, warnings } => {
                &&& bnet_parses(model_str@)
                &&& warnings@.len() == 0
                &&& document.metadata@ == Map::<Seq<Seq<char>>, Seq<char>>::empty()
                &&& exists|net: Network|
                    net_view(&net) == bnet_network(model_str@) && document_matches(&net, &document)
            },
            ConversionResult::Failure { errors } => {
                &&& !bnet_parses(model_str@)
                &&& errors@.len() == 1
                &&& errors@[0]@.len() > 0
            },
        },
{
    match parse_bnet(model_str) {
        Ok(net) => {
            let document = network_to_document(&net);
            ConversionResult::Success { document, warnings: Vec::new() }
        },
        Err(e) => failure(e),
    }
}

/// Reads an `.aeon` text into a document whose metadata holds the text's
/// metadata directives.
pub fn read_aeon_model(model_str: &str) -> (r: ConversionResult)
    ensures
        match r {
            ConversionResult::Success { document, warnings } => {
                &&& aeon_parses(model_str@)
                &&& warnings@.len() == 0
                &&& document.metadata@ == metadata_of(model_str@)
                &&& document.metadata.branches@.len() == 0
                &&& exists|net: Network|
                    net_view(&net) == aeon_network(model_str@) && document_matches(&net, &document)
            },
            ConversionResult::Failure { errors } => {
                &&& !aeon_parses(model_str@)
                &&& errors@.len() == 1
                &&& errors@[0]@ == aeon_error(model_str@)
                &&& errors@[0]@.len() > 0
            },
        },
{
    match parse_aeon(model_str) {
        Ok((_, net)) => {
            let document = aeon_document(&net, model_str);
            ConversionResult::Success { document, warnings: Vec::new() }
        },
        Err(e) => failure(e),
    }
}

/// Turns an imported SBML model into a document whose metadata is the
/// model's layout, with the import's warnings; an import error becomes the
/// one error of a failure.
pub fn read_sbml_model(imported: Result<SbmlModel, String>) -> (r: ConversionResult)
    ensures
        match imported {
            Ok(m) => r matches ConversionResult::Success { document, warnings } && {
                &&& document_matches(&m.network, &document)
                &&& document.metadata@ == position_tree(m.layout@)
                &&& document.metadata.branch_paths() == seq![seq![crate::metadata::word_position()]]
                &&& warnings@ == m.warnings@
            },
            Err(e) => r matches ConversionResult::Failure { errors } && errors@ == seq![e],
        },
{
    match imported {
        Ok(m) => {
            let document = sbml_document(&m.network, &m.layout);
            ConversionResult::Success { document, warnings: m.warnings }
        },
        Err(e) => failure(e),
    }
}

} // verus!
