//! A network as plain values, and its document: the projection that a user
//! interface reads, with ids written as decimal strings.
use crate::metadata::MetadataTree;
use crate::text::string_of;
use vstd::prelude::*;

verus! {

#[derive(PartialEq, Eq, Structural, Clone, Copy, Debug)]
pub enum Monotonicity {
    Activation,
    Inhibition,
}

/// An edge of the regulatory graph; variables are named by their index.
#[derive(Clone, Copy, Debug)]
pub struct Regulation {
    pub regulator: usize,
    pub target: usize,
    pub observable: bool,
    pub monotonicity: Option<Monotonicity>,
}

/// The variables (by name, index = id) and the regulations of a network.
pub struct Network {
    pub names: Vec<String>,
    pub regulations: Vec<Regulation>,
}

impl Network {
    /// Every regulation joins two variables of the network.
    pub open spec fn wf(&self) -> bool {
        forall|j: int|
            0 <= j < self.regulations@.len() ==> #[trigger] self.regulations@[j].regulator
                < self.names@.len() && self.regulations@[j].target < self.names@.len()
    }
}

/// A network as plain values: the names of its variables, its regulations.
pub open spec fn net_view(n: &Network) -> (Seq<Seq<char>>, Seq<Regulation>) {
    (n.names@.map_values(|s: String| s@), n.regulations@)
}

/// The two networks have the same variables, in the same order, and the
/// same regulations, in the same order.
pub open spec fn same_network(a: &Network, b: &Network) -> bool {
    &&& a.names@.len() == b.names@.len()
    &&& forall|i: int| 0 <= i < a.names@.len() ==> #[trigger] a.names@[i]@ == b.names@[i]@
    &&& a.regulations@ == b.regulations@
}

pub struct VariableDoc {
    pub id: String,
    pub name: String,
}

pub struct RegulationDoc {
    pub regulator: String,
    pub target: String,
    pub observable: bool,
    pub monotonicity: Option<String>,
}

pub struct Document {
    pub variables: Vec<VariableDoc>,
    pub regulations: Vec<RegulationDoc>,
    pub metadata: MetadataTree,
}

pub open spec fn digit_char(d: nat) -> char {
    seq!['0', '1', '2', '3', '4', '5', '6', '7', '8', '9'][d as int]
}

/// The decimal numeral of `n`, without leading zeros.
pub open spec fn decimal(n: nat) -> Seq<char>
    decreases n,
{
    if n < 10 {
        seq![digit_char(n)]
    } else {
        decimal(n / 10).push(digit_char(n % 10))
    }
}

pub proof fn lemma_decimal_len(n: nat)
    ensures
        decimal(n).len() >= 1,
        n >= 10 ==> decimal(n).len() >= 2,
    decreases n,
{
    if n >= 10 {
        lemma_decimal_len(n / 10);
    }
}

/// Different numbers have different numerals.
pub proof fn lemma_decimal_injective(a: nat, b: nat)
    requires
        decimal(a) == decimal(b),
    ensures
        a == b,
    decreases a,
{
    lemma_decimal_len(a);
    lemma_decimal_len(b);
    let digits = seq!['0', '1', '2', '3', '4', '5', '6', '7', '8', '9'];
    if a < 10 && b < 10 {
        assert(decimal(a)[0] == digits[a as int]);
        assert(decimal(b)[0] == digits[b as int]);
    } else if a >= 10 && b >= 10 {
        assert(decimal(a).last() == digits[(a % 10) as int]);
        assert(decimal(b).last() == digits[(b % 10) as int]);
        assert(decimal(a).drop_last() =~= decimal(a / 10));
        assert(decimal(b).drop_last() =~= decimal(b / 10));
        lemma_decimal_injective(a / 10, b / 10);
    }
}

fn push_decimal(n: usize, out: &mut Vec<char>)
    ensures
        final(out)@ == old(out)@ + decimal(n as nat),
    decreases n,
{
    let digits = vec!['0', '1', '2', '3', '4', '5', '6', '7', '8', '9'];
    assert(digits@ =~= seq!['0', '1', '2', '3', '4', '5', '6', '7', '8', '9']);
    let ghost start = out@;
    if n >= 10 {
        push_decimal(n / 10, out);
    }
    out.push(digits[n % 10]);
    assert(out@ =~= start + decimal(n as nat));
}

/// The decimal numeral of `n`.
pub fn decimal_string(n: usize) -> (r: String)
    ensures
        r@ == decimal(n as nat),
{
    let mut out: Vec<char> = Vec::new();
    push_decimal(n, &mut out);
    assert(out@ =~= decimal(n as nat));
    string_of(out.as_slice())
}

pub open spec fn monotonicity_word(m: Monotonicity) -> Seq<char> {
    match m {
        Monotonicity::Activation => seq!['a', 'c', 't', 'i', 'v', 'a', 't', 'i', 'o', 'n'],
        Monotonicity::Inhibition => seq!['i', 'n', 'h', 'i', 'b', 'i', 't', 'i', 'o', 'n'],
    }
}

/// The name under which a document writes a monotonicity.
pub fn monotonicity_name(m: Monotonicity) -> (r: String)
    ensures
        r@ == monotonicity_word(m),
{
    let w = match m {
        Monotonicity::Activation => vec!['a', 'c', 't', 'i', 'v', 'a', 't', 'i', 'o', 'n'],
        Monotonicity::Inhibition => vec!['i', 'n', 'h', 'i', 'b', 'i', 't', 'i', 'o', 'n'],
    };
    assert(w@ =~= monotonicity_word(m));
    string_of(w.as_slice())
}

/// `d` writes the regulation `r`.
pub open spec fn regulation_matches(r: Regulation, d: RegulationDoc) -> bool {
    &&& d.regulator@ == decimal(r.regulator as nat)
    &&& d.target@ == decimal(r.target as nat)
    &&& d.observable == r.observable
    &&& match r.monotonicity {
        Some(m) => d.monotonicity is Some && d.monotonicity->0@ == monotonicity_word(m),
        None => d.monotonicity is None,
    }
}

/// `doc` lists the variables and regulations of `net`, in the network's order:
/// each variable with its index as id, each regulation by those ids.
pub open spec fn document_matches(net: &Network, doc: &Document) -> bool {
    &&& doc.variables@.len() == net.names@.len()
    &&& forall|i: int|
        0 <= i < net.names@.len() ==> (#[trigger] doc.variables@[i]).id@ == decimal(i as nat)
            && doc.variables@[i].name@ == net.names@[i]@
    &&& doc.regulations@.len() == net.regulations@.len()
    &&& forall|j: int|
        0 <= j < net.regulations@.len() ==> regulation_matches(
            #[trigger] net.regulations@[j],
            doc.regulations@[j],
        )
}

/// Writes a network as a document with empty metadata.
pub fn network_to_document(net: &Network) -> (r: Document)
    ensures
        document_matches(net, &r),
        r.metadata@ == Map::<Seq<Seq<char>>, Seq<char>>::empty(),
        r.metadata.wf(),
        r.metadata.branches@.len() == 0,
{
    let mut variables: Vec<VariableDoc> = Vec::new();
    let mut i: usize = 0;
    while i < net.names.len()
        invariant
            i <= net.names.len(),
            variables@.len() == i,
            forall|k: int|
                0 <= k < i ==> (#[trigger] variables@[k]).id@ == decimal(k as nat)
                    && variables@[k].name@ == net.names@[k]@,
        decreases net.names.len() - i,
    {
        variables.push(VariableDoc { id: decimal_string(i), name: net.names[i].clone() });
        i += 1;
    }
    let mut regulations: Vec<RegulationDoc> = Vec::new();
    let mut j: usize = 0;
    while j < net.regulations.len()
        invariant
            j <= net.regulations.len(),
            regulations@.len() == j,
            forall|k: int|
                0 <= k < j ==> regulation_matches(
                    #[trigger] net.regulations@[k],
                    regulations@[k],
                ),
        decreases net.regulations.len() - j,
    {
        let r = net.regulations[j];
        let monotonicity = match r.monotonicity {
            Some(m) => Some(monotonicity_name(m)),
            None => None,
        };
        regulations.push(
            RegulationDoc {
                regulator: decimal_string(r.regulator),
                target: decimal_string(r.target),
                observable: r.observable,
                monotonicity,
            },
        );
        j += 1;
    }
    Document { variables, regulations, metadata: MetadataTree::new() }
}

fn find_id(s: &String, n: usize) -> (r: Option<usize>)
    ensures
        match r {
            Some(k) => k < n && decimal(k as nat) == s@,
            None => forall|k: nat| k < n ==> decimal(k) != s@,
        },
{
    let mut k: usize = 0;
    while k < n
        invariant
            k <= n,
            forall|j: nat| j < k ==> decimal(j) != s@,
        decreases n - k,
    {
        if decimal_string(k) == *s {
            return Some(k);
        }
        k += 1;
    }
    None
}

fn parse_monotonicity(s: &String) -> (r: Option<Monotonicity>)
    ensures
        match r {
            Some(m) => monotonicity_word(m) == s@,
            None => forall|m: Monotonicity| monotonicity_word(m) != s@,
        },
{
    if monotonicity_name(Monotonicity::Activation) == *s {
        Some(Monotonicity::Activation)
    } else if monotonicity_name(Monotonicity::Inhibition) == *s {
        Some(Monotonicity::Inhibition)
    } else {
        proof {
            assert forall|m: Monotonicity| monotonicity_word(m) != s@ by {
                match m {
                    Monotonicity::Activation => {},
                    Monotonicity::Inhibition => {},
                }
            }
        }
        None
    }
}

/// Reads a network back from a document. `None` exactly where no network
/// has this document.
pub fn document_to_network(doc: &Document) -> (r: Option<Network>)
    ensures
        match r {
            Some(net) => net.wf() && document_matches(&net, doc),
            None => forall|net: Network| net.wf() ==> !document_matches(&net, doc),
        },
{
    let n = doc.variables.len();
    let mut names: Vec<String> = Vec::new();
    let mut i: usize = 0;
    while i < n
        invariant
            n == doc.variables@.len(),
            i <= n,
            names@.len() == i,
            forall|k: int|
                0 <= k < i ==> (#[trigger] doc.variables@[k]).id@ == decimal(k as nat)
                    && doc.variables@[k].name@ == names@[k]@,
        decreases n - i,
    {
        if decimal_string(i) != doc.variables[i].id {
            proof {
                assert forall|net: Network| net.wf() implies !document_matches(&net, doc) by {
                    if document_matches(&net, doc) {
                        assert(doc.variables@[i as int].id@ == decimal(i as nat));
                    }
                }
            }
            return None;
        }
        names.push(doc.variables[i].name.clone());
        i += 1;
    }
    let mut regulations: Vec<Regulation> = Vec::new();
    let mut j: usize = 0;
    while j < doc.regulations.len()
        invariant
            n == doc.variables@.len(),
            names@.len() == n,
            j <= doc.regulations@.len(),
            regulations@.len() == j,
            forall|k: int|
                0 <= k < j ==> (#[trigger] regulations@[k]).regulator < n && regulations@[k].target
                    < n && regulation_matches(regulations@[k], doc.regulations@[k]),
        decreases doc.regulations.len() - j,
    {
        let d = &doc.regulations[j];
        let regulator = find_id(&d.regulator, n);
        let target = find_id(&d.target, n);
        let monotonicity = match &d.monotonicity {
            Some(s) => match parse_monotonicity(s) {
                Some(m) => Some(Some(m)),
                None => None,
            },
            None => Some(None),
        };
        match (regulator, target, monotonicity) {
            (Some(a), Some(b), Some(m)) => {
                regulations.push(
                    Regulation { regulator: a, target: b, observable: d.observable, monotonicity: m },
                );
            },
            _ => {
                proof {
                    assert forall|net: Network| net.wf() implies !document_matches(&net, doc) by {
                        if document_matches(&net, doc) {
                            let r = net.regulations@[j as int];
                            assert(regulation_matches(r, doc.regulations@[j as int]));
                            assert(r.regulator < n && r.target < n);
                            match r.monotonicity {
                                Some(m) => {},
                                None => {},
                            }
                        }
                    }
                }
                return None;
            },
        }
        j += 1;
    }
    let net = Network { names, regulations };
    assert(net.wf());
    Some(net)
}

/// Reading a network back from the document of a network gives that network
/// again: the same variables with the same names, the same regulations with
/// the same monotonicity and observability, in the same order.
pub proof fn lemma_document_round_trip(net: &Network, doc: &Document, back: &Network)
    requires
        net.wf(),
        document_matches(net, doc),
        document_matches(back, doc),
    ensures
        same_network(net, back),
{
    assert forall|j: int| 0 <= j < net.regulations@.len() implies net.regulations@[j]
        == back.regulations@[j] by {
        let a = net.regulations@[j];
        let b = back.regulations@[j];
        assert(regulation_matches(a, doc.regulations@[j]));
        assert(regulation_matches(b, doc.regulations@[j]));
        lemma_decimal_injective(a.regulator as nat, b.regulator as nat);
        lemma_decimal_injective(a.target as nat, b.target as nat);
        match (a.monotonicity, b.monotonicity) {
            (Some(x), Some(y)) => {
                if x != y {
                    assert(monotonicity_word(x)[0] != monotonicity_word(y)[0]);
                }
            },
            _ => {},
        }
    }
    assert(net.regulations@ =~= back.regulations@);
    assert forall|i: int| 0 <= i < net.names@.len() implies #[trigger] net.names@[i]@
        == back.names@[i]@ by {
        assert(doc.variables@[i].name@ == net.names@[i]@);
    }
}

} // verus!
