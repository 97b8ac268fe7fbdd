//! The document model: scalars, sequences and mappings with text keys.
use vstd::prelude::*;

verus! {

/// How a node is written: block or flow collections; plain, quoted or block
/// scalars. The sorters carry styles along unchanged.
#[derive(Clone, Copy, Debug, PartialEq, Eq)]
pub enum Style {
    Any,
    Flow,
    Block,
    Plain,
    SingleQuoted,
    DoubleQuoted,
    Literal,
    Folded,
}

/// Abstract value of a document node.
pub enum Yaml {
    Scalar(Seq<char>, Style),
    Sequence(Seq<Yaml>, Style),
    Mapping(Seq<EntryView>, Style),
}

/// Abstract value of a mapping entry: the key's text, then the key's style and
/// the value.
pub type EntryView = (Seq<char>, (Style, Yaml));

/// A document node: a scalar, a sequence of nodes, or a mapping whose keys are
/// scalars, each in document order and with the style it is written in.
pub enum Node {
    Scalar(String, Style),
    Sequence(Vec<Node>, Style),
    Mapping(Vec<Entry>, Style),
}

/// One key/value pair of a mapping.
pub struct Entry {
    pub key: String,
    pub key_style: Style,
    pub value: Node,
}

/// Abstract values of a sequence of nodes.
pub open spec fn nodes_view(s: Seq<Node>) -> Seq<Yaml>
    decreases s,
{
    if s.len() == 0 {
        Seq::empty()
    } else {
        nodes_view(s.drop_last()).push(s.last().view_node())
    }
}

/// Abstract values of a sequence of entries.
pub open spec fn entries_view(s: Seq<Entry>) -> Seq<EntryView>
    decreases s,
{
    if s.len() == 0 {
        Seq::empty()
    } else {
        entries_view(s.drop_last()).push(s.last().view_entry())
    }
}

impl Node {
    pub open spec fn view_node(&self) -> Yaml
        decreases self,
    {
        match self {
            Node::Scalar(s, st) => Yaml::Scalar(s@, *st),
            Node::Sequence(v, st) => Yaml::Sequence(nodes_view(v@), *st),
            Node::Mapping(v, st) => Yaml::Mapping(entries_view(v@), *st),
        }
    }
}

impl Entry {
    pub open spec fn view_entry(&self) -> EntryView
        decreases self,
    {
        (self.key@, (self.key_style, self.value.view_node()))
    }
}

/// The view of a sequence of nodes lists the nodes' views in order.
pub proof fn lemma_nodes_view(s: Seq<Node>)
    ensures
        nodes_view(s).len() == s.len(),
        forall|i: int| 0 <= i < s.len() ==> #[trigger] nodes_view(s)[i] == s[i].view_node(),
    decreases s.len(),
{
    if s.len() > 0 {
        lemma_nodes_view(s.drop_last());
    }
}

/// The view of a sequence of entries lists the entries' keys and values in order.
pub proof fn lemma_entries_view(s: Seq<Entry>)
    ensures
        entries_view(s).len() == s.len(),
        forall|i: int|
            0 <= i < s.len() ==> #[trigger] entries_view(s)[i] == s[i].view_entry(),
    decreases s.len(),
{
    if s.len() > 0 {
        lemma_entries_view(s.drop_last());
    }
}

impl View for Node {
    type V = Yaml;

    open spec fn view(&self) -> Yaml {
        self.view_node()
    }
}

} // verus!
