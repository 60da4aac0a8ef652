//! An indented, line-by-line rendering of a syntax tree, for reading by
//! people. Every level of nesting indents by two spaces, and the lines that
//! open and close a block carry the number of their level.

use crate::compiler::ast::{
    all_sentinel_free, is_sentinel_free, lemma_node_views, node_view, node_views, Node, NodeView,
};
use crate::compiler::tokenizer::kind_name;
use crate::string_utils::{decimal_digits, decimal_string, signed_digits, signed_string};
use vstd::prelude::*;
use vstd::string::*;

verus! {

/// `count` spaces.
pub open spec fn spaces(count: nat) -> Seq<char> {
    Seq::new(count, |i: int| ' ')
}

/// The white space in front of a line at nesting level `indent`.
pub open spec fn margin(indent: nat) -> Seq<char> {
    spaces(2 * indent)
}

/// A line that opens or closes a block: the margin, a text, and the number
/// of a level.
pub open spec fn block_line(indent: nat, text: Seq<char>, level: nat) -> Seq<char> {
    margin(indent) + text + decimal_digits(level)
}

/// A line that shows a value: the margin, a label, and the value.
pub open spec fn field_line(indent: nat, label: Seq<char>, value: Seq<char>) -> Seq<char> {
    margin(indent) + label + value
}

/// The lines that show `node` at nesting level `indent`. The sentinels
/// have no lines.
pub open spec fn rendering(node: NodeView, indent: nat) -> Seq<Seq<char>>
    decreases node,
{
    let close = seq![block_line(indent, "}"@, indent)];
    match node {
        NodeView::Program(body) => seq![block_line(indent, "Program {"@, indent)] + renderings(
            body,
            indent + 1,
        ) + close,
        NodeView::Failure => Seq::empty(),
        NodeView::Ignore => Seq::empty(),
        NodeView::BinaryExpression(left, operator, right) => seq![
            block_line(indent, "Binary Expression {"@, indent),
        ] + rendering(*left, indent + 1) + rendering(*operator, indent + 1) + rendering(
            *right,
            indent + 1,
        ) + close,
        NodeView::NumericLiteral(value) => seq![
            field_line(indent, "NumericLiteral: "@, signed_digits(value as int)),
        ],
        NodeView::Identifier(name) => seq![field_line(indent, "Identifier: "@, name)],
        NodeView::BinaryOperator(symbol) => seq![field_line(indent, "Binary Operator: "@, symbol)],
        NodeView::VariableDeclaration(kind, name, value) => seq![
            block_line(indent, "Variable Declaration {"@, indent),
        ] + rendering(*kind, indent + 1) + seq![
            field_line(indent + 1, "Name: "@, name),
            block_line(indent + 1, "Expression {"@, indent + 1),
        ] + rendering(*value, indent + 2) + seq![block_line(indent + 1, "}"@, indent + 1)] + close,
        NodeView::DeclarationType(kind) => seq![
            field_line(indent, "DeclarationType: "@, kind_name(kind)),
        ],
        NodeView::FunctionCall(callee, arguments) => seq![
            block_line(indent, "FunctionCall {"@, indent),
        ] + rendering(*callee, indent + 1) + rendering(*arguments, indent + 1) + close,
        NodeView::FunctionParameter(name) => seq![
            field_line(indent, "FunctionParameter: "@, name),
        ],
        NodeView::Arguments(items) => seq![block_line(indent, "Arguments {"@, indent)] + renderings(
            items,
            indent + 1,
        ) + close,
        NodeView::FunctionDeclaration(name, parameters, body) => seq![
            block_line(indent, "FunctionDeclaration {"@, indent),
            field_line(indent + 1, "name: "@, name),
            block_line(indent + 1, "Parameters: ["@, indent + 1),
        ] + renderings(parameters, indent + 2) + seq![block_line(indent + 1, "]"@, indent + 1)]
            + rendering(*body, indent + 1) + close,
        NodeView::ReturnStatement(value) => seq![
            block_line(indent, "Return Statement {"@, indent),
        ] + rendering(*value, indent + 1) + close,
    }
}

/// The lines that show `nodes`, one after the other, at nesting level
/// `indent`.
pub open spec fn renderings(nodes: Seq<NodeView>, indent: nat) -> Seq<Seq<char>>
    decreases nodes,
{
    if nodes.len() == 0 {
        Seq::empty()
    } else {
        renderings(nodes.drop_last(), indent) + rendering(nodes.last(), indent)
    }
}

/// The larger of two numbers.
pub open spec fn larger(a: nat, b: nat) -> nat {
    if a >= b {
        a
    } else {
        b
    }
}

/// The height of a tree: 1 for a node without children, and one more than
/// its highest child for any other.
pub open spec fn height(node: NodeView) -> nat
    decreases node,
{
    match node {
        NodeView::Program(body) => 1 + heights(body),
        NodeView::BinaryExpression(left, operator, right) => 1 + larger(
            height(*left),
            larger(height(*operator), height(*right)),
        ),
        NodeView::VariableDeclaration(kind, _, value) => 1 + larger(height(*kind), height(*value)),
        NodeView::FunctionCall(callee, arguments) => 1 + larger(
            height(*callee),
            height(*arguments),
        ),
        NodeView::Arguments(items) => 1 + heights(items),
        NodeView::FunctionDeclaration(_, parameters, body) => 1 + larger(
            heights(parameters),
            height(*body),
        ),
        NodeView::ReturnStatement(value) => 1 + height(*value),
        _ => 1,
    }
}

/// The height of the highest of `nodes`; 0 for none.
pub open spec fn heights(nodes: Seq<NodeView>) -> nat
    decreases nodes,
{
    if nodes.len() == 0 {
        0
    } else {
        larger(heights(nodes.drop_last()), height(nodes.last()))
    }
}

/// No node of a sequence is higher than the sequence.
pub proof fn lemma_heights(nodes: Seq<NodeView>, i: int)
    requires
        0 <= i < nodes.len(),
    ensures
        height(nodes[i]) <= heights(nodes),
    decreases nodes.len(),
{
    if i < nodes.len() - 1 {
        lemma_heights(nodes.drop_last(), i);
    }
}

/// The tree can be shown at nesting level `indent`: it holds no sentinel,
/// and no level number on the way down leaves the range of the machine's
/// integers.
pub open spec fn can_be_shown(node: NodeView, indent: nat) -> bool {
    is_sentinel_free(node) && indent + 2 * height(node) <= usize::MAX
}

/// The views of a list of lines.
pub open spec fn line_views(lines: Seq<String>) -> Seq<Seq<char>> {
    lines.map_values(|line: String| line@)
}

/// The white space in front of a line at nesting level `indent`.
fn margin_text(indent: usize) -> (text: String)
    ensures
        text@ == margin(indent as nat),
{
    let mut text = String::new();
    let mut level: usize = 0;
    proof {
        reveal_strlit("  ");
        assert(text@ =~= margin(0));
    }
    while level < indent
        invariant
            level <= indent,
            text@ == margin(level as nat),
            "  "@ == seq![' ', ' '],
        decreases indent - level,
    {
        text.append("  ");
        level += 1;
        assert(text@ =~= margin(level as nat));
    }
    text
}

/// Adds a line that opens or closes a block.
fn push_block_line(lines: &mut Vec<String>, indent: usize, text: &str, level: usize)
    ensures
        line_views(final(lines)@) == line_views(old(lines)@) + seq![
            block_line(indent as nat, text@, level as nat),
        ],
{
    let mut line = margin_text(indent);
    line.append(text);
    let number = decimal_string(level as u64);
    line.append(number.as_str());
    lines.push(line);
    assert(line_views(lines@) =~= line_views(old(lines)@) + seq![
        block_line(indent as nat, text@, level as nat),
    ]);
}

/// Adds a line that shows a value.
fn push_field_line(lines: &mut Vec<String>, indent: usize, label: &str, value: &str)
    ensures
        line_views(final(lines)@) == line_views(old(lines)@) + seq![
            field_line(indent as nat, label@, value@),
        ],
{
    let mut line = margin_text(indent);
    line.append(label);
    line.append(value);
    lines.push(line);
    assert(line_views(lines@) =~= line_views(old(lines)@) + seq![
        field_line(indent as nat, label@, value@),
    ]);
}


/// Adds the lines of every node of `nodes`, in order.
fn render_all(nodes: &Vec<Box<Node>>, indent: usize, lines: &mut Vec<String>)
    requires
        forall|i: int| 0 <= i < nodes@.len() ==> is_sentinel_free(node_view(*#[trigger] nodes@[i])),
        indent + 2 * heights(node_views(nodes@)) <= usize::MAX,
    ensures
        line_views(final(lines)@) == line_views(old(lines)@) + renderings(
            node_views(nodes@),
            indent as nat,
        ),
    decreases nodes,
{
    let ghost views = node_views(nodes@);
    let ghost start = line_views(lines@);
    proof {
        lemma_node_views(nodes@);
        assert(views.take(0) =~= Seq::<NodeView>::empty());
        assert(start + renderings(views.take(0), indent as nat) =~= start);
    }
    let mut i: usize = 0;
    while i < nodes.len()
        invariant
            i <= nodes.len(),
            views == node_views(nodes@),
            views.len() == nodes@.len(),
            forall|j: int| 0 <= j < nodes@.len() ==> (#[trigger] views[j]) == node_view(*nodes@[j]),
            forall|j: int|
                0 <= j < nodes@.len() ==> is_sentinel_free(node_view(*#[trigger] nodes@[j])),
            indent + 2 * heights(views) <= usize::MAX,
            line_views(lines@) == start + renderings(views.take(i as int), indent as nat),
        decreases nodes.len() - i,
    {
        proof {
            lemma_heights(views, i as int);
            assert(views[i as int] == node_view(*nodes@[i as int]));
        }
        render_into(&nodes[i], indent, lines);
        proof {
            let done = views.take(i as int);
            let next = views.take(i + 1);
            assert(next.drop_last() =~= done);
            assert(next.last() == views[i as int]);
            assert(start + (renderings(done, indent as nat) + rendering(
                views[i as int],
                indent as nat,
            )) =~= (start + renderings(done, indent as nat)) + rendering(
                views[i as int],
                indent as nat,
            ));
        }
        i += 1;
    }
    assert(views.take(nodes.len() as int) =~= views);
}

/// Adds the lines of `node` at nesting level `indent`.
#[verifier::rlimit(100)]
fn render_into(node: &Node, indent: usize, lines: &mut Vec<String>)
    requires
        can_be_shown(node@, indent as nat),
    ensures
        line_views(final(lines)@) == line_views(old(lines)@) + rendering(node@, indent as nat),
    decreases node,
{
    proof {
        reveal_with_fuel(is_sentinel_free, 2);
    }
    let ghost start = line_views(lines@);
    let ghost level = indent as nat;
    let ghost close = seq![block_line(level, "}"@, level)];
    match node {
        Node::Program(body) => {
            proof {
                lemma_node_views(body@);
                assert forall|i: int| 0 <= i < body@.len() implies is_sentinel_free(
                    node_view(*#[trigger] body@[i]),
                ) by {
                    assert(node_views(body@)[i] == node_view(*body@[i]));
                }
            }
            push_block_line(lines, indent, "Program {", indent);
            render_all(body, indent + 1, lines);
            push_block_line(lines, indent, "}", indent);
            assert(line_views(lines@) =~= start + (seq![block_line(level, "Program {"@, level)]
                + renderings(node_views(body@), level + 1) + close));
        },
        Node::Failure => {
            assert(line_views(lines@) =~= start + rendering(node@, level));
        },
        Node::Ignore => {
            assert(line_views(lines@) =~= start + rendering(node@, level));
        },
        Node::BinaryExpression(left, operator, right) => {
            push_block_line(lines, indent, "Binary Expression {", indent);
            render_into(left, indent + 1, lines);
            render_into(operator, indent + 1, lines);
            render_into(right, indent + 1, lines);
            push_block_line(lines, indent, "}", indent);
            assert(line_views(lines@) =~= start + (seq![
                block_line(level, "Binary Expression {"@, level),
            ] + rendering(node_view(**left), level + 1) + rendering(
                node_view(**operator),
                level + 1,
            ) + rendering(node_view(**right), level + 1) + close));
        },
        Node::NumericLiteral(value) => {
            let text = signed_string(*value);
            push_field_line(lines, indent, "NumericLiteral: ", text.as_str());
        },
        Node::Identifier(name) => {
            push_field_line(lines, indent, "Identifier: ", name.as_str());
        },
        Node::BinaryOperator(symbol) => {
            push_field_line(lines, indent, "Binary Operator: ", symbol.as_str());
        },
        Node::VariableDeclaration(kind, name, value) => {
            push_block_line(lines, indent, "Variable Declaration {", indent);
            render_into(kind, indent + 1, lines);
            push_field_line(lines, indent + 1, "Name: ", name.as_str());
            push_block_line(lines, indent + 1, "Expression {", indent + 1);
            render_into(value, indent + 2, lines);
            push_block_line(lines, indent + 1, "}", indent + 1);
            push_block_line(lines, indent, "}", indent);
            assert(line_views(lines@) =~= start + (seq![
                block_line(level, "Variable Declaration {"@, level),
            ] + rendering(node_view(**kind), level + 1) + seq![
                field_line(level + 1, "Name: "@, name@),
                block_line(level + 1, "Expression {"@, level + 1),
            ] + rendering(node_view(**value), level + 2) + seq![
                block_line(level + 1, "}"@, level + 1),
            ] + close));
        },
        Node::DeclarationType(kind) => {
            push_field_line(lines, indent, "DeclarationType: ", kind.name());
        },
        Node::FunctionCall(callee, arguments) => {
            push_block_line(lines, indent, "FunctionCall {", indent);
            render_into(callee, indent + 1, lines);
            render_into(arguments, indent + 1, lines);
            push_block_line(lines, indent, "}", indent);
            assert(line_views(lines@) =~= start + (seq![
                block_line(level, "FunctionCall {"@, level),
            ] + rendering(node_view(**callee), level + 1) + rendering(
                node_view(**arguments),
                level + 1,
            ) + close));
        },
        Node::FunctionParameter(name) => {
            push_field_line(lines, indent, "FunctionParameter: ", name.as_str());
        },
        Node::Arguments(items) => {
            proof {
                lemma_node_views(items@);
                assert forall|i: int| 0 <= i < items@.len() implies is_sentinel_free(
                    node_view(*#[trigger] items@[i]),
                ) by {
                    assert(node_views(items@)[i] == node_view(*items@[i]));
                }
            }
            push_block_line(lines, indent, "Arguments {", indent);
            render_all(items, indent + 1, lines);
            push_block_line(lines, indent, "}", indent);
            assert(line_views(lines@) =~= start + (seq![block_line(level, "Arguments {"@, level)]
                + renderings(node_views(items@), level + 1) + close));
        },
        Node::FunctionDeclaration(name, parameters, body) => {
            proof {
                lemma_node_views(parameters@);
                assert forall|i: int| 0 <= i < parameters@.len() implies is_sentinel_free(
                    node_view(*#[trigger] parameters@[i]),
                ) by {
                    assert(node_views(parameters@)[i] == node_view(*parameters@[i]));
                }
            }
            push_block_line(lines, indent, "FunctionDeclaration {", indent);
            push_field_line(lines, indent + 1, "name: ", name.as_str());
            push_block_line(lines, indent + 1, "Parameters: [", indent + 1);
            render_all(parameters, indent + 2, lines);
            push_block_line(lines, indent + 1, "]", indent + 1);
            render_into(body, indent + 1, lines);
            push_block_line(lines, indent, "}", indent);
            assert(line_views(lines@) =~= start + (seq![
                block_line(level, "FunctionDeclaration {"@, level),
                field_line(level + 1, "name: "@, name@),
                block_line(level + 1, "Parameters: ["@, level + 1),
            ] + renderings(node_views(parameters@), level + 2) + seq![
                block_line(level + 1, "]"@, level + 1),
            ] + rendering(node_view(**body), level + 1) + close));
        },
        Node::ReturnStatement(value) => {
            push_block_line(lines, indent, "Return Statement {", indent);
            render_into(value, indent + 1, lines);
            push_block_line(lines, indent, "}", indent);
            assert(line_views(lines@) =~= start + (seq![
                block_line(level, "Return Statement {"@, level),
            ] + rendering(node_view(**value), level + 1) + close));
        },
    }
}

impl Node {
    /// The lines that show the tree at nesting level `indent`, from top to
    /// bottom. Printing them one by one displays the program.
    pub fn display_program(&self, indent: usize) -> (lines: Vec<String>)
        requires
            can_be_shown(self@, indent as nat),
        ensures
            line_views(lines@) == rendering(self@, indent as nat),
    {
        let mut lines: Vec<String> = Vec::new();
        assert(line_views(lines@) =~= Seq::<Seq<char>>::empty());
        render_into(self, indent, &mut lines);
        assert(Seq::<Seq<char>>::empty() + rendering(self@, indent as nat) =~= rendering(
            self@,
            indent as nat,
        ));
        lines
    }
}


/// Tells whether no node of `nodes` holds a sentinel.
fn all_clean(nodes: &Vec<Box<Node>>) -> (clean: bool)
    ensures
        clean == all_sentinel_free(node_views(nodes@)),
    decreases nodes,
{
    proof {
        lemma_node_views(nodes@);
    }
    let mut i: usize = 0;
    while i < nodes.len()
        invariant
            i <= nodes.len(),
            node_views(nodes@).len() == nodes@.len(),
            forall|j: int|
                0 <= j < nodes@.len() ==> (#[trigger] node_views(nodes@)[j]) == node_view(
                    *nodes@[j],
                ),
            forall|j: int| 0 <= j < i ==> is_sentinel_free(#[trigger] node_views(nodes@)[j]),
        decreases nodes.len() - i,
    {
        if !is_clean_node(&nodes[i]) {
            assert(!is_sentinel_free(node_views(nodes@)[i as int]));
            return false;
        }
        i += 1;
    }
    true
}

/// Tells whether the tree holds no sentinel.
fn is_clean_node(node: &Node) -> (clean: bool)
    ensures
        clean == is_sentinel_free(node@),
    decreases node,
{
    proof {
        reveal_with_fuel(is_sentinel_free, 2);
    }
    match node {
        Node::Program(body) => {
            let clean = all_clean(body);
            assert(node@ == NodeView::Program(node_views(body@)));
            clean
        },
        Node::Failure => false,
        Node::Ignore => false,
        Node::BinaryExpression(left, operator, right) => is_clean_node(left) && is_clean_node(
            operator,
        ) && is_clean_node(right),
        Node::VariableDeclaration(kind, _, value) => is_clean_node(kind) && is_clean_node(value),
        Node::FunctionCall(callee, arguments) => is_clean_node(callee) && is_clean_node(
            arguments,
        ),
        Node::Arguments(items) => {
            let clean = all_clean(items);
            assert(node@ == NodeView::Arguments(node_views(items@)));
            clean
        },
        Node::FunctionDeclaration(name, parameters, body) => {
            let clean = all_clean(parameters) && is_clean_node(body);
            assert(node@ == NodeView::FunctionDeclaration(
                name@,
                node_views(parameters@),
                Box::new(node_view(**body)),
            ));
            clean
        },
        Node::ReturnStatement(value) => is_clean_node(value),
        _ => true,
    }
}

/// The larger of two heights.
fn larger_of(a: usize, b: usize) -> (c: usize)
    ensures
        c == larger(a as nat, b as nat),
{
    if a >= b {
        a
    } else {
        b
    }
}

/// The height of the highest of `nodes` where it is `limit` at most.
fn heights_within(nodes: &Vec<Box<Node>>, limit: usize) -> (found: Option<usize>)
    ensures
        match found {
            Some(h) => h == heights(node_views(nodes@)) && h <= limit,
            None => heights(node_views(nodes@)) > limit,
        },
    decreases nodes,
{
    let ghost views = node_views(nodes@);
    proof {
        lemma_node_views(nodes@);
        assert(views.take(0) =~= Seq::<NodeView>::empty());
    }
    let mut highest: usize = 0;
    let mut i: usize = 0;
    while i < nodes.len()
        invariant
            i <= nodes.len(),
            views == node_views(nodes@),
            views.len() == nodes@.len(),
            forall|j: int| 0 <= j < nodes@.len() ==> (#[trigger] views[j]) == node_view(*nodes@[j]),
            highest == heights(views.take(i as int)),
            highest <= limit,
        decreases nodes.len() - i,
    {
        proof {
            assert(views.take(i + 1).drop_last() =~= views.take(i as int));
            assert(views.take(i + 1).last() == views[i as int]);
            lemma_heights(views, i as int);
        }
        match height_within(&nodes[i], limit) {
            Some(h) => {
                highest = larger_of(highest, h);
            },
            None => {
                return None;
            },
        }
        i += 1;
    }
    assert(views.take(nodes.len() as int) =~= views);
    Some(highest)
}

/// The height of the tree where it is `limit` at most.
fn height_within(node: &Node, limit: usize) -> (found: Option<usize>)
    ensures
        match found {
            Some(h) => h == height(node@) && h <= limit,
            None => height(node@) > limit,
        },
    decreases node,
{
    if limit == 0 {
        return None;
    }
    let below = match node {
        Node::Program(body) => heights_within(body, limit - 1),
        Node::BinaryExpression(left, operator, right) => match (
            height_within(left, limit - 1),
            height_within(operator, limit - 1),
            height_within(right, limit - 1),
        ) {
            (Some(a), Some(b), Some(c)) => Some(larger_of(a, larger_of(b, c))),
            _ => None,
        },
        Node::VariableDeclaration(kind, _, value) => match (
            height_within(kind, limit - 1),
            height_within(value, limit - 1),
        ) {
            (Some(a), Some(b)) => Some(larger_of(a, b)),
            _ => None,
        },
        Node::FunctionCall(callee, arguments) => match (
            height_within(callee, limit - 1),
            height_within(arguments, limit - 1),
        ) {
            (Some(a), Some(b)) => Some(larger_of(a, b)),
            _ => None,
        },
        Node::Arguments(items) => heights_within(items, limit - 1),
        Node::FunctionDeclaration(_, parameters, body) => match (
            heights_within(parameters, limit - 1),
            height_within(body, limit - 1),
        ) {
            (Some(a), Some(b)) => Some(larger_of(a, b)),
            _ => None,
        },
        Node::ReturnStatement(value) => height_within(value, limit - 1),
        _ => Some(0),
    };
    match below {
        Some(h) => Some(h + 1),
        None => None,
    }
}

impl Node {
    /// Tells whether the tree holds neither sentinel, `Failure` or
    /// `Ignore`, at any depth.
    pub fn is_clean(&self) -> (clean: bool)
        ensures
            clean == is_sentinel_free(self@),
    {
        is_clean_node(self)
    }

    /// Tells whether the tree can be displayed at nesting level `indent`.
    pub fn can_display(&self, indent: usize) -> (possible: bool)
        ensures
            possible == can_be_shown(self@, indent as nat),
    {
        let limit = (usize::MAX - indent) / 2;
        self.is_clean() && height_within(self, limit).is_some()
    }
}

} // verus!
