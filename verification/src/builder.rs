use crate::document::{
    can_have_children, children_of, event_views, events_of, events_of_all, node_data, node_from,
    tree_of, Event, EventView, NodeData, NodeDataView,
};
use crate::error::Error;
use crate::node::{node_views, option_view, Element, HtmlNode, NodeView};
use vstd::prelude::*;
use vstd::string::StringExecFns;

verus! {

/// A node that was entered and not yet left, with the children that were finished below
/// it so far.
pub struct FrameView {
    pub data: NodeDataView,
    pub children: Seq<NodeView>,
}

/// The state of building a tree from its walk: the nodes that are entered and not yet
/// left, outermost first, and the tree once its root is left.
pub struct BuilderView {
    pub stack: Seq<FrameView>,
    pub done: Option<NodeView>,
}

/// The state before the first event.
pub open spec fn start() -> BuilderView {
    BuilderView { stack: Seq::empty(), done: None }
}

/// The state after a finished tree is handed to it: the tree becomes the last child of
/// the innermost entered node, or the result when no node is entered.
pub open spec fn with_child(state: BuilderView, tree: NodeView) -> BuilderView {
    if state.stack.len() == 0 {
        BuilderView { stack: state.stack, done: Some(tree) }
    } else {
        let top = state.stack.last();
        BuilderView {
            stack: state.stack.drop_last().push(
                FrameView { data: top.data, children: top.children.push(tree) },
            ),
            done: None,
        }
    }
}

/// The state after several finished trees are handed to the innermost entered node.
pub open spec fn with_children(state: BuilderView, trees: Seq<NodeView>) -> BuilderView {
    let top = state.stack.last();
    BuilderView {
        stack: state.stack.drop_last().push(
            FrameView { data: top.data, children: top.children + trees },
        ),
        done: None,
    }
}

/// The state after one more event, or `None` when the event cannot follow: it comes
/// after the root was left, it enters a node below one that cannot have children, or it
/// leaves a node when none is entered.
pub open spec fn step(state: BuilderView, event: EventView) -> Option<BuilderView> {
    if state.done is Some {
        None
    } else {
        match event {
            EventView::Open(data) => {
                if state.stack.len() > 0 && !can_have_children(state.stack.last().data) {
                    None
                } else {
                    Some(
                        BuilderView {
                            stack: state.stack.push(FrameView { data, children: Seq::empty() }),
                            done: None,
                        },
                    )
                }
            },
            EventView::Close => {
                if state.stack.len() == 0 {
                    None
                } else {
                    let top = state.stack.last();
                    Some(
                        with_child(
                            BuilderView { stack: state.stack.drop_last(), done: None },
                            node_from(top.data, top.children),
                        ),
                    )
                }
            },
        }
    }
}

/// The state after a sequence of events, or `None` when one of them cannot follow.
pub open spec fn run(state: BuilderView, events: Seq<EventView>) -> Option<BuilderView>
    decreases events.len(),
{
    if events.len() == 0 {
        Some(state)
    } else {
        match run(state, events.drop_last()) {
            Some(before) => step(before, events.last()),
            None => None,
        }
    }
}

/// The events that lead to a stack of entered nodes.
pub open spec fn stack_events(stack: Seq<FrameView>) -> Seq<EventView>
    decreases stack.len(),
{
    if stack.len() == 0 {
        Seq::empty()
    } else {
        stack_events(stack.drop_last()) + seq![EventView::Open(stack.last().data)] + events_of_all(
            stack.last().children,
        )
    }
}

/// The events that lead to a state.
pub open spec fn trace(state: BuilderView) -> Seq<EventView> {
    match state.done {
        Some(tree) => events_of(tree),
        None => stack_events(state.stack),
    }
}

/// What holds of every state that events lead to: once the root is left no node is
/// entered, and only the innermost entered node may be one that cannot have children,
/// and then has none.
pub open spec fn well_formed(state: BuilderView) -> bool {
    &&& state.done is Some ==> state.stack.len() == 0
    &&& forall|i: int|
        0 <= i < state.stack.len() && !can_have_children((#[trigger] state.stack[i]).data) ==> i
            == state.stack.len() - 1 && state.stack[i].children.len() == 0
}

/// Running over two sequences of events in turn is running over both at once.
pub proof fn lemma_run_concat(state: BuilderView, first: Seq<EventView>, second: Seq<EventView>)
    ensures
        run(state, first + second) == match run(state, first) {
            Some(middle) => run(middle, second),
            None => None,
        },
    decreases second.len(),
{
    if second.len() == 0 {
        assert(first + second =~= first);
    } else {
        lemma_run_concat(state, first, second.drop_last());
        assert((first + second).drop_last() =~= first + second.drop_last());
        assert((first + second).last() == second.last());
    }
}

/// Running over one event is taking one step.
pub proof fn lemma_run_one(state: BuilderView, event: EventView)
    ensures
        run(state, seq![event]) == step(state, event),
{
    assert(seq![event].drop_last() =~= Seq::<EventView>::empty());
    assert(run(state, seq![event].drop_last()) == Some(state));
}

/// A node is the node made from its own data and children.
pub proof fn lemma_node_from_parts(tree: NodeView)
    ensures
        node_from(node_data(tree), children_of(tree)) == tree,
        !can_have_children(node_data(tree)) ==> children_of(tree).len() == 0,
{
}

/// The walk of a node made from data and children enters the data, walks the children
/// and leaves, provided that a node that cannot have children is given none.
pub proof fn lemma_events_of_node_from(data: NodeDataView, children: Seq<NodeView>)
    requires
        can_have_children(data) || children.len() == 0,
    ensures
        events_of(node_from(data, children)) == seq![EventView::Open(data)] + events_of_all(
            children,
        ) + seq![EventView::Close],
{
}

/// Where a node may be entered, the walk of a tree leads to the state that was handed
/// the tree.
pub proof fn lemma_run_tree(state: BuilderView, tree: NodeView)
    requires
        state.done is None,
        state.stack.len() == 0 || can_have_children(state.stack.last().data),
    ensures
        run(state, events_of(tree)) == Some(with_child(state, tree)),
    decreases tree, 0nat,
{
    let data = node_data(tree);
    let children = children_of(tree);
    let open = seq![EventView::Open(data)];
    let close = seq![EventView::Close];
    let entered = BuilderView {
        stack: state.stack.push(FrameView { data, children: Seq::empty() }),
        done: None,
    };
    lemma_run_one(state, EventView::Open(data));
    assert(run(state, open) == Some(entered));
    let inner = match tree {
        NodeView::Document { children } => events_of_all(children),
        NodeView::Fragment { children } => events_of_all(children),
        NodeView::Element(element) => events_of_all(element.children),
        _ => Seq::empty(),
    };
    let walked = with_children(entered, children);
    match tree {
        NodeView::Document { children } => {
            lemma_run_trees(entered, children);
        },
        NodeView::Fragment { children } => {
            lemma_run_trees(entered, children);
        },
        NodeView::Element(element) => {
            lemma_run_trees(entered, element.children);
        },
        _ => {
            assert(walked.stack =~= entered.stack);
        },
    }
    assert(run(entered, inner) == Some(walked));
    lemma_run_concat(state, open, inner);
    assert(run(state, open + inner) == Some(walked));
    lemma_run_one(walked, EventView::Close);
    lemma_node_from_parts(tree);
    assert(walked.stack.last().children =~= children);
    assert(walked.stack.drop_last() =~= state.stack);
    assert(step(walked, EventView::Close) == Some(with_child(state, tree)));
    lemma_run_concat(state, open + inner, close);
}

/// Where the innermost entered node can have children, the walks of sibling trees lead
/// to the state in which that node was handed all of them.
pub proof fn lemma_run_trees(state: BuilderView, trees: Seq<NodeView>)
    requires
        state.done is None,
        state.stack.len() > 0,
        trees.len() > 0 ==> can_have_children(state.stack.last().data),
    ensures
        run(state, events_of_all(trees)) == Some(with_children(state, trees)),
    decreases trees, trees.len(),
{
    if trees.len() == 0 {
        assert(state.stack.last().children + trees =~= state.stack.last().children);
        assert(with_children(state, trees).stack =~= state.stack);
    } else {
        let front = trees.drop_last();
        lemma_run_trees(state, front);
        let middle = with_children(state, front);
        lemma_run_tree(middle, trees.last());
        lemma_run_concat(state, events_of_all(front), events_of(trees.last()));
        assert(middle.stack.last().children.push(trees.last()) =~= state.stack.last().children
            + trees);
        assert(middle.stack.drop_last() =~= state.stack.drop_last());
    }
}

/// One step appends its event to the trace and keeps the state well formed.
pub proof fn lemma_step_trace(state: BuilderView, event: EventView)
    requires
        well_formed(state),
        step(state, event) is Some,
    ensures
        well_formed(step(state, event)->0),
        trace(step(state, event)->0) == trace(state).push(event),
{
    let next = step(state, event)->0;
    match event {
        EventView::Open(data) => {
            assert(next.stack.drop_last() =~= state.stack);
            assert(trace(next) =~= trace(state).push(event));
        },
        EventView::Close => {
            let top = state.stack.last();
            let below = state.stack.drop_last();
            let node = node_from(top.data, top.children);
            lemma_events_of_node_from(top.data, top.children);
            assert(state.stack =~= below.push(top));
            if below.len() == 0 {
                assert(stack_events(below) =~= Seq::<EventView>::empty());
                assert(trace(next) =~= trace(state).push(event));
            } else {
                let under = below.last();
                assert(under == state.stack[below.len() - 1]);
                assert(can_have_children(under.data));
                assert(next.stack.drop_last() =~= below.drop_last());
                let grown = under.children.push(node);
                assert(grown.drop_last() =~= under.children);
                assert(events_of_all(grown) == events_of_all(under.children) + events_of(node));
                assert(next.stack.last().children == grown);
                assert(stack_events(next.stack) == stack_events(below.drop_last())
                    + seq![EventView::Open(under.data)] + events_of_all(grown));
                assert(stack_events(below) == stack_events(below.drop_last())
                    + seq![EventView::Open(under.data)] + events_of_all(under.children));
                assert(stack_events(state.stack) == stack_events(below)
                    + seq![EventView::Open(top.data)] + events_of_all(top.children));
                assert(trace(next) =~= trace(state).push(event));
                assert forall|i: int|
                    0 <= i < next.stack.len() && !can_have_children(
                        (#[trigger] next.stack[i]).data,
                    ) implies i == next.stack.len() - 1 && next.stack[i].children.len() == 0 by {
                    if i < next.stack.len() - 1 {
                        assert(next.stack[i] == state.stack[i]);
                    }
                }
            }
        },
    }
}

/// A run appends its events to the trace and keeps the state well formed.
pub proof fn lemma_run_trace(state: BuilderView, events: Seq<EventView>)
    requires
        well_formed(state),
        run(state, events) is Some,
    ensures
        well_formed(run(state, events)->0),
        trace(run(state, events)->0) == trace(state) + events,
    decreases events.len(),
{
    if events.len() == 0 {
        assert(trace(state) + events =~= trace(state));
    } else {
        lemma_run_trace(state, events.drop_last());
        let before = run(state, events.drop_last())->0;
        lemma_step_trace(before, events.last());
        assert(trace(state) + events =~= (trace(state) + events.drop_last()).push(events.last()));
    }
}

/// A sequence of events is the walk of a tree exactly when the run over it ends with the
/// root left, and then of the tree that the run built and of no other.
pub proof fn lemma_run_decides(events: Seq<EventView>)
    ensures
        tree_of(events) == match run(start(), events) {
            Some(end) => end.done,
            None => None,
        },
        forall|tree: NodeView| events_of(tree) == events ==> tree_of(events) == Some(tree),
{
    assert forall|tree: NodeView| events_of(tree) == events implies run(start(), events) == Some(
        with_child(start(), tree),
    ) by {
        lemma_run_tree(start(), tree);
    }
    if let Some(end) = run(start(), events) {
        assert(stack_events(start().stack) =~= Seq::<EventView>::empty());
        lemma_run_trace(start(), events);
        assert(trace(end) =~= events);
        if let Some(built) = end.done {
            assert(events_of(built) == events);
        }
    }
}

/// Two trees with the same walk are the same tree.
pub proof fn lemma_walk_has_one_tree(first: NodeView, second: NodeView)
    requires
        events_of(first) == events_of(second),
    ensures
        first == second,
{
    lemma_run_decides(events_of(first));
}

/// A node that was entered and not yet left, with the children that were finished below
/// it so far.
pub struct Frame {
    pub data: NodeData,
    pub children: Vec<HtmlNode>,
}

impl View for Frame {
    type V = FrameView;

    open spec fn view(&self) -> FrameView {
        FrameView { data: self.data@, children: node_views(self.children@) }
    }
}

/// The views of a stack of frames, one for one.
pub open spec fn frame_views(stack: Seq<Frame>) -> Seq<FrameView> {
    Seq::new(stack.len(), |i: int| stack[i]@)
}

/// Makes the node with this data and these children. A node that cannot have children
/// gets none.
pub fn make_node(data: NodeData, children: Vec<HtmlNode>) -> (node: HtmlNode)
    ensures
        node@ == node_from(data@, node_views(children@)),
{
    match data {
        NodeData::Document => HtmlNode::Document { children },
        NodeData::Fragment => HtmlNode::Fragment { children },
        NodeData::Doctype { name, public_id, system_id } => HtmlNode::Doctype {
            name,
            public_id,
            system_id,
        },
        NodeData::Element { tag, attrs } => HtmlNode::Element(Element { tag, attrs, children }),
        NodeData::Text { text } => HtmlNode::Text { text },
        NodeData::Comment { text } => HtmlNode::Comment { text },
        NodeData::ProcessingInstruction => HtmlNode::ProcessingInstruction,
    }
}

/// Checks whether a node with this data can have children.
pub fn data_can_have_children(data: &NodeData) -> (can: bool)
    ensures
        can == can_have_children(data@),
{
    match data {
        NodeData::Document => true,
        NodeData::Fragment => true,
        NodeData::Element { .. } => true,
        _ => false,
    }
}

/// Where a run fails on the first events of a sequence, the sequence is the walk of no
/// tree.
proof fn lemma_failed_prefix(events: Seq<EventView>, n: int)
    requires
        0 <= n <= events.len(),
        run(start(), events.take(n)) is None,
    ensures
        tree_of(events) is None,
{
    lemma_run_concat(start(), events.take(n), events.skip(n));
    assert(events.take(n) + events.skip(n) =~= events);
    lemma_run_decides(events);
}

/// Builds the tree that a sequence of events is the walk of.
///
/// Fails with [`Error::Custom`] when the events are the walk of no tree: an event follows
/// the leaving of the root, a node is entered below one that cannot have children, a node
/// is left when none is entered, or the root is never left.
pub fn build_tree(events: Vec<Event>) -> (result: Result<HtmlNode, Error>)
    ensures
        match result {
            Ok(tree) => tree_of(event_views(events@)) == Some(tree@),
            Err(error) => error is Custom && tree_of(event_views(events@)) is None,
        },
{
    let ghost all = event_views(events@);
    let mut stack: Vec<Frame> = Vec::new();
    let mut done: Option<HtmlNode> = None;
    assert(frame_views(stack@) =~= start().stack);
    assert(all.take(0) =~= Seq::<EventView>::empty());
    for event in it: events
        invariant
            it.seq() == events@,
            all == event_views(events@),
            run(start(), all.take(it.index() as int)) == Some(
                BuilderView { stack: frame_views(stack@), done: option_view(done) },
            ),
    {
        let ghost n = it.index() as int;
        let ghost before = BuilderView { stack: frame_views(stack@), done: option_view(done) };
        proof {
            assert(all.take(n + 1).drop_last() =~= all.take(n));
            assert(all.take(n + 1).last() == event@);
            assert(run(start(), all.take(n + 1)) == step(before, event@));
        }
        if done.is_some() {
            proof {
                lemma_failed_prefix(all, n + 1);
            }
            return Err(Error::Custom(String::from_str("an event follows the end of the tree")));
        }
        match event {
            Event::Open(data) => {
                if stack.len() > 0 && !data_can_have_children(&stack[stack.len() - 1].data) {
                    proof {
                        assert(frame_views(stack@).last() == stack@[stack.len() - 1]@);
                        lemma_failed_prefix(all, n + 1);
                    }
                    return Err(
                        Error::Custom(
                            String::from_str("a node is entered below one that has no children"),
                        ),
                    );
                }
                proof {
                    if stack.len() > 0 {
                        assert(frame_views(stack@).last() == stack@[stack.len() - 1]@);
                    }
                }
                let ghost old_stack = stack@;
                let frame = Frame { data, children: Vec::new() };
                assert(node_views(frame.children@) =~= Seq::<NodeView>::empty());
                stack.push(frame);
                assert(frame_views(stack@) =~= frame_views(old_stack).push(frame@));
            },
            Event::Close => {
                let ghost old_stack = stack@;
                match stack.pop() {
                    None => {
                        proof {
                            lemma_failed_prefix(all, n + 1);
                        }
                        return Err(
                            Error::Custom(String::from_str("a node is left when none is entered")),
                        );
                    },
                    Some(top) => {
                        proof {
                            assert(frame_views(old_stack).last() == top@);
                            assert(frame_views(stack@) =~= frame_views(old_stack).drop_last());
                        }
                        let node = make_node(top.data, top.children);
                        let ghost below = stack@;
                        match stack.pop() {
                            None => {
                                done = Some(node);
                                assert(frame_views(stack@) =~= frame_views(below));
                            },
                            Some(under) => {
                                let ghost grown = node_views(under.children@).push(node@);
                                let Frame { data, mut children } = under;
                                children.push(node);
                                assert(node_views(children@) =~= grown);
                                let frame = Frame { data, children };
                                stack.push(frame);
                                proof {
                                    assert(frame_views(below).last() == under@);
                                    assert(frame_views(stack@) =~= frame_views(
                                        below,
                                    ).drop_last().push(frame@));
                                }
                            },
                        }
                    },
                }
            },
        }
    }
    proof {
        assert(all.take(all.len() as int) =~= all);
        lemma_run_decides(all);
    }
    match done {
        Some(tree) => Ok(tree),
        None => Err(Error::Custom(String::from_str("the root of the tree is never left"))),
    }
}

} // verus!
