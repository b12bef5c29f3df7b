use vstd::prelude::*;

verus! {

use vstd::string::StrSliceExecFns;
use vstd::string::StringExecFns;
use crate::tree::Node;
use crate::strings::{char_repeat, lines_of, int_text, i64_text, split_lines, views_of};

/// The heading level used for a mapping key at `depth`: one more than the
/// depth, capped at the six levels the output format supports.
pub open spec fn heading_level(depth: nat) -> nat {
    if depth < 6 {
        depth + 1
    } else {
        6
    }
}

/// The indent prefix at `depth`: four spaces per level.
pub open spec fn indent_spec(depth: nat) -> Seq<char> {
    char_repeat(' ', 4 * depth)
}

/// A block of text lines, each indented for `depth` and closed with a line
/// break.
pub open spec fn text_block(lines: Seq<Seq<char>>, depth: nat) -> Seq<char>
    decreases lines.len(),
{
    if lines.len() == 0 {
        Seq::empty()
    } else {
        indent_spec(depth) + lines[0] + "\n"@ + text_block(lines.skip(1), depth)
    }
}

/// The heading text of a mapping key: the text itself for a plain text key,
/// a debug-style tag for any other kind of key (composite keys are
/// abbreviated; the entry is kept either way).
pub open spec fn key_text(k: Node) -> Seq<char> {
    match k {
        Node::Text(s) => s@,
        Node::Null => "Null"@,
        Node::Boolean(b) => if b {
            "Boolean(true)"@
        } else {
            "Boolean(false)"@
        },
        Node::Integer(i) => "Integer("@ + int_text(i as int) + ")"@,
        Node::Real(r) => "Real("@ + r@ + ")"@,
        Node::Sequence(_) => "Sequence([..])"@,
        Node::Mapping(_) => "Mapping({..})"@,
        Node::Alias => "Alias"@,
        Node::Malformed => "Malformed"@,
    }
}

/// The text a node renders to at `depth`: scalars close with a line break,
/// text lines are indented, sequence elements are concatenated in order, and
/// each mapping pair emits a heading for its key and the value one level
/// deeper.
pub open spec fn render_spec(n: Node, depth: nat) -> Seq<char>
    decreases n,
{
    match n {
        Node::Null => "null\n"@,
        Node::Boolean(b) => if b {
            "true\n"@
        } else {
            "false\n"@
        },
        Node::Integer(i) => int_text(i as int) + "\n"@,
        Node::Real(r) => r@ + "\n"@,
        Node::Text(s) => text_block(lines_of(s@), depth),
        Node::Sequence(items) => render_items(items@, depth),
        Node::Mapping(pairs) => render_pairs(pairs@, depth),
        Node::Alias => "Alias\n"@,
        Node::Malformed => "Bad Value\n"@,
    }
}

/// The elements of a sequence, rendered in order at the same depth, with no
/// separator.
pub open spec fn render_items(items: Seq<Node>, depth: nat) -> Seq<char>
    decreases items,
{
    if items.len() == 0 {
        Seq::empty()
    } else {
        render_spec(items[0], depth) + render_items(items.skip(1), depth)
    }
}

/// The pairs of a mapping, in insertion order: a blank line, the heading
/// marker and key with two trailing spaces, a blank line, then the value one
/// level deeper.
pub open spec fn render_pairs(pairs: Seq<(Node, Node)>, depth: nat) -> Seq<char>
    decreases pairs,
{
    if pairs.len() == 0 {
        Seq::empty()
    } else {
        "\n"@ + char_repeat('#', heading_level(depth)) + " "@ + key_text(pairs[0].0) + "  \n\n"@
            + render_spec(pairs[0].1, depth + 1) + render_pairs(pairs.skip(1), depth)
    }
}

proof fn lemma_render_items_append(s1: Seq<Node>, s2: Seq<Node>, depth: nat)
    ensures
        render_items(s1 + s2, depth) == render_items(s1, depth) + render_items(s2, depth),
    decreases s1,
{
    if s1.len() == 0 {
        assert(s1 + s2 =~= s2);
        assert(render_items(s1, depth) + render_items(s2, depth) =~= render_items(s2, depth));
    } else {
        lemma_render_items_append(s1.skip(1), s2, depth);
        assert((s1 + s2).skip(1) =~= s1.skip(1) + s2);
        assert(render_items(s1 + s2, depth) =~= render_items(s1, depth) + render_items(s2, depth));
    }
}

proof fn lemma_render_pairs_append(s1: Seq<(Node, Node)>, s2: Seq<(Node, Node)>, depth: nat)
    ensures
        render_pairs(s1 + s2, depth) == render_pairs(s1, depth) + render_pairs(s2, depth),
    decreases s1,
{
    if s1.len() == 0 {
        assert(s1 + s2 =~= s2);
        assert(render_pairs(s1, depth) + render_pairs(s2, depth) =~= render_pairs(s2, depth));
    } else {
        lemma_render_pairs_append(s1.skip(1), s2, depth);
        assert((s1 + s2).skip(1) =~= s1.skip(1) + s2);
        assert(render_pairs(s1 + s2, depth) =~= render_pairs(s1, depth) + render_pairs(s2, depth));
    }
}

proof fn lemma_text_block_append(l1: Seq<Seq<char>>, l2: Seq<Seq<char>>, depth: nat)
    ensures
        text_block(l1 + l2, depth) == text_block(l1, depth) + text_block(l2, depth),
    decreases l1.len(),
{
    if l1.len() == 0 {
        assert(l1 + l2 =~= l2);
        assert(text_block(l1, depth) + text_block(l2, depth) =~= text_block(l2, depth));
    } else {
        lemma_text_block_append(l1.skip(1), l2, depth);
        assert((l1 + l2).skip(1) =~= l1.skip(1) + l2);
        assert(text_block(l1 + l2, depth) =~= text_block(l1, depth) + text_block(l2, depth));
    }
}

/// The heading level for a mapping key at depth `d` is `min(d + 1, 6)`:
/// however deep a mapping nests, no heading marker is ever longer than six
/// characters.
pub proof fn lemma_heading_level_capped(depth: nat)
    ensures
        heading_level(depth) == vstd::math::min(depth + 1int, 6),
        1 <= heading_level(depth) <= 6,
{
}

/// Whether a text is empty or closed by a line break.
pub open spec fn closed_by_break(s: Seq<char>) -> bool {
    s.len() > 0 ==> s.last() == '\n'
}

proof fn lemma_closed_append(a: Seq<char>, b: Seq<char>)
    requires
        closed_by_break(a),
        closed_by_break(b),
    ensures
        closed_by_break(a + b),
{
    if b.len() > 0 {
        assert((a + b).last() == b.last());
    } else {
        assert(a + b =~= a);
    }
}

/// Rendering never truncates a line: whatever the node and the depth, the
/// rendered text is empty or ends in an explicit line break, and every leaf
/// emission is closed by one.
pub proof fn lemma_render_closed(n: Node, depth: nat)
    ensures
        closed_by_break(render_spec(n, depth)),
    decreases n,
{
    reveal_strlit("null\n");
    reveal_strlit("true\n");
    reveal_strlit("false\n");
    reveal_strlit("\n");
    reveal_strlit("Alias\n");
    reveal_strlit("Bad Value\n");
    match n {
        Node::Integer(i) => {
            assert((int_text(i as int) + "\n"@).last() == '\n');
        },
        Node::Real(r) => {
            assert((r@ + "\n"@).last() == '\n');
        },
        Node::Text(s) => {
            lemma_text_block_closed(lines_of(s@), depth);
        },
        Node::Sequence(items) => {
            assert(decreases_to!(n => n->Sequence_0));
            assert(decreases_to!(n->Sequence_0 => items@));
            lemma_items_closed(items@, depth);
        },
        Node::Mapping(pairs) => {
            assert(decreases_to!(n => n->Mapping_0));
            assert(decreases_to!(n->Mapping_0 => pairs@));
            lemma_pairs_closed(pairs@, depth);
        },
        _ => {},
    }
}

proof fn lemma_text_block_closed(lines: Seq<Seq<char>>, depth: nat)
    ensures
        closed_by_break(text_block(lines, depth)),
    decreases lines.len(),
{
    reveal_strlit("\n");
    if lines.len() > 0 {
        lemma_text_block_closed(lines.skip(1), depth);
        let head = indent_spec(depth) + lines[0] + "\n"@;
        assert(head.last() == '\n');
        lemma_closed_append(head, text_block(lines.skip(1), depth));
    }
}

proof fn lemma_items_closed(items: Seq<Node>, depth: nat)
    ensures
        closed_by_break(render_items(items, depth)),
    decreases items,
{
    if items.len() > 0 {
        lemma_render_closed(items[0], depth);
        lemma_items_closed(items.skip(1), depth);
        lemma_closed_append(render_spec(items[0], depth), render_items(items.skip(1), depth));
    }
}

proof fn lemma_pairs_closed(pairs: Seq<(Node, Node)>, depth: nat)
    ensures
        closed_by_break(render_pairs(pairs, depth)),
    decreases pairs,
{
    reveal_strlit("  \n\n");
    if pairs.len() > 0 {
        lemma_render_closed(pairs[0].1, depth + 1);
        lemma_pairs_closed(pairs.skip(1), depth);
        let head = "\n"@ + char_repeat('#', heading_level(depth)) + " "@ + key_text(pairs[0].0)
            + "  \n\n"@;
        assert(head.last() == '\n');
        lemma_closed_append(head, render_spec(pairs[0].1, depth + 1));
        lemma_closed_append(
            head + render_spec(pairs[0].1, depth + 1),
            render_pairs(pairs.skip(1), depth),
        );
    }
}

fn heading_str(level: u8) -> (r: &'static str)
    requires
        1 <= level <= 6,
    ensures
        r@ == char_repeat('#', level as nat),
{
    let r = if level == 1 {
        "#"
    } else if level == 2 {
        "##"
    } else if level == 3 {
        "###"
    } else if level == 4 {
        "####"
    } else if level == 5 {
        "#####"
    } else {
        "######"
    };
    proof {
        reveal_strlit("#");
        reveal_strlit("##");
        reveal_strlit("###");
        reveal_strlit("####");
        reveal_strlit("#####");
        reveal_strlit("######");
        assert(r@ =~= char_repeat('#', level as nat));
    }
    r
}

fn key_string(k: &Node) -> (r: String)
    ensures
        r@ == key_text(*k),
{
    match k {
        Node::Text(s) => s.clone(),
        Node::Null => String::from_str("Null"),
        Node::Boolean(b) => {
            if *b {
                String::from_str("Boolean(true)")
            } else {
                String::from_str("Boolean(false)")
            }
        },
        Node::Integer(i) => {
            let digits = i64_text(*i);
            String::from_str("Integer(").concat(digits.as_str()).concat(")")
        },
        Node::Real(r) => String::from_str("Real(").concat(r.as_str()).concat(")"),
        Node::Sequence(_) => String::from_str("Sequence([..])"),
        Node::Mapping(_) => String::from_str("Mapping({..})"),
        Node::Alias => String::from_str("Alias"),
        Node::Malformed => String::from_str("Malformed"),
    }
}

fn render_go(n: &Node, indent: &String, level: u8, Ghost(depth): Ghost<nat>) -> (r: String)
    requires
        indent@ == indent_spec(depth),
        level as nat == heading_level(depth),
    ensures
        r@ == render_spec(*n, depth),
    decreases *n,
{
    match n {
        Node::Null => String::from_str("null\n"),
        Node::Boolean(b) => {
            if *b {
                String::from_str("true\n")
            } else {
                String::from_str("false\n")
            }
        },
        Node::Integer(i) => i64_text(*i).concat("\n"),
        Node::Real(r) => r.clone().concat("\n"),
        Node::Text(s) => {
            let lines = split_lines(s.as_str());
            let mut acc = String::new();
            let mut i: usize = 0;
            proof {
                assert(views_of(lines@).take(0) =~= Seq::<Seq<char>>::empty());
            }
            while i < lines.len()
                invariant
                    views_of(lines@) == lines_of(s@),
                    indent@ == indent_spec(depth),
                    i <= lines.len(),
                    acc@ == text_block(views_of(lines@).take(i as int), depth),
                decreases lines.len() - i,
            {
                acc.append(indent.as_str());
                acc.append(lines[i].as_str());
                acc.append("\n");
                proof {
                    let lv = views_of(lines@);
                    lemma_text_block_append(lv.take(i as int), seq![lv[i as int]], depth);
                    assert(lv.take(i as int) + seq![lv[i as int]] =~= lv.take(i as int + 1));
                    assert(seq![lv[i as int]].skip(1) =~= Seq::<Seq<char>>::empty());
                    assert(text_block(Seq::<Seq<char>>::empty(), depth) == Seq::<char>::empty());
                    assert(text_block(seq![lv[i as int]], depth) =~= indent_spec(depth)
                        + lv[i as int] + "\n"@);
                    assert(acc@ =~= text_block(lv.take(i as int + 1), depth));
                }
                i = i + 1;
            }
            proof {
                assert(views_of(lines@).take(lines@.len() as int) =~= views_of(lines@));
            }
            acc
        },
        Node::Sequence(items) => {
            let mut acc = String::new();
            let mut i: usize = 0;
            proof {
                assert(items@.take(0) =~= Seq::<Node>::empty());
            }
            while i < items.len()
                invariant
                    *n == Node::Sequence(*items),
                    indent@ == indent_spec(depth),
                    level as nat == heading_level(depth),
                    i <= items.len(),
                    acc@ == render_items(items@.take(i as int), depth),
                decreases items.len() - i,
            {
                proof {
                    assert(decreases_to!(*n => (*n)->Sequence_0));
                    assert((*n)->Sequence_0 == *items);
                    assert(decreases_to!(*items => items@));
                    assert(decreases_to!(items@ => items@[i as int]));
                    assert(decreases_to!(*n => items@[i as int]));
                }
                let piece = render_go(&items[i], indent, level, Ghost(depth));
                acc.append(piece.as_str());
                proof {
                    lemma_render_items_append(
                        items@.take(i as int),
                        seq![items@[i as int]],
                        depth,
                    );
                    assert(items@.take(i as int) + seq![items@[i as int]] =~= items@.take(
                        i as int + 1,
                    ));
                    assert(seq![items@[i as int]].skip(1) =~= Seq::<Node>::empty());
                    assert(render_items(Seq::<Node>::empty(), depth) == Seq::<char>::empty());
                    assert(render_items(seq![items@[i as int]], depth) =~= render_spec(
                        items@[i as int],
                        depth,
                    ));
                    assert(acc@ =~= render_items(items@.take(i as int + 1), depth));
                }
                i = i + 1;
            }
            proof {
                assert(items@.take(items@.len() as int) =~= items@);
            }
            acc
        },
        Node::Mapping(pairs) => {
            let mut acc = String::new();
            let child_level: u8 = if level < 6 {
                level + 1
            } else {
                6
            };
            let mut child_indent = indent.clone();
            child_indent.append("    ");
            proof {
                reveal_strlit("    ");
                assert(child_indent@ =~= indent_spec(depth + 1));
            }
            let mut i: usize = 0;
            proof {
                assert(pairs@.take(0) =~= Seq::<(Node, Node)>::empty());
            }
            while i < pairs.len()
                invariant
                    *n == Node::Mapping(*pairs),
                    indent@ == indent_spec(depth),
                    level as nat == heading_level(depth),
                    child_indent@ == indent_spec(depth + 1),
                    child_level as nat == heading_level(depth + 1),
                    i <= pairs.len(),
                    acc@ == render_pairs(pairs@.take(i as int), depth),
                decreases pairs.len() - i,
            {
                acc.append("\n");
                acc.append(heading_str(level));
                acc.append(" ");
                let ks = key_string(&pairs[i].0);
                acc.append(ks.as_str());
                acc.append("  \n\n");
                proof {
                    assert(decreases_to!(*n => (*n)->Mapping_0));
                    assert((*n)->Mapping_0 == *pairs);
                    assert(decreases_to!(*pairs => pairs@));
                    assert(decreases_to!(pairs@ => pairs@[i as int]));
                    assert(decreases_to!(pairs@[i as int] => pairs@[i as int].1));
                    assert(decreases_to!(*n => pairs@[i as int].1));
                }
                let sub = render_go(&pairs[i].1, &child_indent, child_level, Ghost(depth + 1));
                acc.append(sub.as_str());
                proof {
                    lemma_render_pairs_append(
                        pairs@.take(i as int),
                        seq![pairs@[i as int]],
                        depth,
                    );
                    assert(pairs@.take(i as int) + seq![pairs@[i as int]] =~= pairs@.take(
                        i as int + 1,
                    ));
                    assert(seq![pairs@[i as int]].skip(1) =~= Seq::<(Node, Node)>::empty());
                    assert(render_pairs(Seq::<(Node, Node)>::empty(), depth) == Seq::<
                        char,
                    >::empty());
                    assert(render_pairs(seq![pairs@[i as int]], depth) =~= "\n"@ + char_repeat(
                        '#',
                        heading_level(depth),
                    ) + " "@ + key_text(pairs@[i as int].0) + "  \n\n"@ + render_spec(
                        pairs@[i as int].1,
                        depth + 1,
                    ));
                    assert(acc@ =~= render_pairs(pairs@.take(i as int + 1), depth));
                }
                i = i + 1;
            }
            proof {
                assert(pairs@.take(pairs@.len() as int) =~= pairs@);
            }
            acc
        },
        Node::Alias => String::from_str("Alias\n"),
        Node::Malformed => String::from_str("Bad Value\n"),
    }
}

/// Renders a node into heading-structured text. A pure function of the node
/// and the starting depth; the root of a document renders at depth zero.
pub fn render(n: &Node, depth: usize) -> (r: String)
    ensures
        r@ == render_spec(*n, depth as nat),
{
    let mut indent = String::new();
    let mut j: usize = 0;
    proof {
        assert(indent@ =~= char_repeat(' ', 0));
    }
    while j < depth
        invariant
            j <= depth,
            indent@ == char_repeat(' ', 4 * (j as nat)),
        decreases depth - j,
    {
        indent.append("    ");
        proof {
            reveal_strlit("    ");
            assert(indent@ =~= char_repeat(' ', 4 * ((j + 1) as nat)));
        }
        j = j + 1;
    }
    let level: u8 = if depth < 6 {
        (depth + 1) as u8
    } else {
        6
    };
    render_go(n, &indent, level, Ghost(depth as nat))
}

} // verus!
