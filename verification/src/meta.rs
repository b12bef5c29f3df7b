use vstd::prelude::*;

verus! {

use vstd::string::StrSliceExecFns;
use vstd::string::StringExecFns;
use crate::tree::Node;
use crate::strings::{str_eq, views_of};
use crate::render::{render, render_spec};

/// Whether the pair's key is the plain text `key`.
pub open spec fn pair_key_is(p: (Node, Node), key: Seq<char>) -> bool {
    p.0 matches Node::Text(s) && s@ == key
}

/// The value of the first pair whose key is the plain text `key`.
pub open spec fn lookup_pairs(pairs: Seq<(Node, Node)>, key: Seq<char>) -> Option<Node>
    decreases pairs.len(),
{
    if pairs.len() == 0 {
        None
    } else if pair_key_is(pairs[0], key) {
        Some(pairs[0].1)
    } else {
        lookup_pairs(pairs.skip(1), key)
    }
}

/// The document's title: the text at the mapping path `info.title`, if the
/// document is a mapping and both levels are present and of the right kind.
pub open spec fn title_of(doc: Node) -> Option<Seq<char>> {
    match doc {
        Node::Mapping(pairs) => match lookup_pairs(pairs@, "info"@) {
            Some(info) => match info {
                Node::Mapping(inner) => match lookup_pairs(inner@, "title"@) {
                    Some(t) => match t {
                        Node::Text(s) => Some(s@),
                        _ => None,
                    },
                    None => None,
                },
                _ => None,
            },
            None => None,
        },
        _ => None,
    }
}

/// The plain text elements of a sequence, in order; elements of any other
/// kind are passed over.
pub open spec fn texts_of(items: Seq<Node>) -> Seq<Seq<char>>
    decreases items.len(),
{
    if items.len() == 0 {
        Seq::empty()
    } else {
        let rest = texts_of(items.skip(1));
        match items[0] {
            Node::Text(s) => seq![s@] + rest,
            _ => rest,
        }
    }
}

/// The document's tags: the text elements of the sequence at the mapping key
/// `tags`. Present (possibly empty) whenever that key holds a sequence.
pub open spec fn tags_of(doc: Node) -> Option<Seq<Seq<char>>> {
    match doc {
        Node::Mapping(pairs) => match lookup_pairs(pairs@, "tags"@) {
            Some(t) => match t {
                Node::Sequence(items) => Some(texts_of(items@)),
                _ => None,
            },
            None => None,
        },
        _ => None,
    }
}

proof fn lemma_texts_of_append(s1: Seq<Node>, s2: Seq<Node>)
    ensures
        texts_of(s1 + s2) == texts_of(s1) + texts_of(s2),
    decreases s1.len(),
{
    if s1.len() == 0 {
        assert(s1 + s2 =~= s2);
        assert(texts_of(s1) + texts_of(s2) =~= texts_of(s2));
    } else {
        lemma_texts_of_append(s1.skip(1), s2);
        assert((s1 + s2).skip(1) =~= s1.skip(1) + s2);
        assert(texts_of(s1 + s2) =~= texts_of(s1) + texts_of(s2));
    }
}

fn find_index(pairs: &Vec<(Node, Node)>, key: &str) -> (r: Option<usize>)
    ensures
        match r {
            Some(i) => i < pairs.len() && lookup_pairs(pairs@, key@) == Some(pairs@[i as int].1),
            None => lookup_pairs(pairs@, key@) is None,
        },
{
    let mut i: usize = 0;
    proof {
        assert(pairs@.skip(0) =~= pairs@);
    }
    while i < pairs.len()
        invariant
            i <= pairs.len(),
            lookup_pairs(pairs@, key@) == lookup_pairs(pairs@.skip(i as int), key@),
        decreases pairs.len() - i,
    {
        let is_match = match &pairs[i].0 {
            Node::Text(s) => str_eq(s.as_str(), key),
            _ => false,
        };
        proof {
            assert(pairs@.skip(i as int)[0] == pairs@[i as int]);
        }
        if is_match {
            return Some(i);
        }
        proof {
            assert(pairs@.skip(i as int).skip(1) =~= pairs@.skip(i as int + 1));
        }
        i = i + 1;
    }
    proof {
        assert(pairs@.skip(i as int) =~= Seq::<(Node, Node)>::empty());
    }
    None
}

/// Extracts the document's title from the mapping path `info.title`; absent
/// or of another kind, there is no title.
pub fn extract_title(doc: &Node) -> (r: Option<String>)
    ensures
        match r {
            Some(t) => title_of(*doc) == Some(t@),
            None => title_of(*doc) is None,
        },
{
    match doc {
        Node::Mapping(pairs) => {
            match find_index(pairs, "info") {
                Some(i) => {
                    match &pairs[i].1 {
                        Node::Mapping(inner) => {
                            match find_index(inner, "title") {
                                Some(j) => {
                                    match &inner[j].1 {
                                        Node::Text(s) => Some(s.clone()),
                                        _ => None,
                                    }
                                },
                                None => None,
                            }
                        },
                        _ => None,
                    }
                },
                None => None,
            }
        },
        _ => None,
    }
}

/// Extracts the document's tags: the text elements of the sequence at the
/// mapping key `tags`; absent or of another kind, there are no tags.
pub fn extract_tags(doc: &Node) -> (r: Option<Vec<String>>)
    ensures
        match r {
            Some(v) => tags_of(*doc) == Some(views_of(v@)),
            None => tags_of(*doc) is None,
        },
{
    match doc {
        Node::Mapping(pairs) => {
            match find_index(pairs, "tags") {
                Some(i) => {
                    match &pairs[i].1 {
                        Node::Sequence(items) => {
                            let mut out: Vec<String> = Vec::new();
                            let mut j: usize = 0;
                            proof {
                                assert(items@.take(0) =~= Seq::<Node>::empty());
                                assert(views_of(out@) =~= texts_of(items@.take(0)));
                            }
                            while j < items.len()
                                invariant
                                    j <= items.len(),
                                    views_of(out@) == texts_of(items@.take(j as int)),
                                decreases items.len() - j,
                            {
                                let ghost before = out@;
                                match &items[j] {
                                    Node::Text(s) => out.push(s.clone()),
                                    _ => {},
                                }
                                proof {
                                    lemma_texts_of_append(
                                        items@.take(j as int),
                                        seq![items@[j as int]],
                                    );
                                    assert(items@.take(j as int) + seq![items@[j as int]]
                                        =~= items@.take(j as int + 1));
                                    assert(seq![items@[j as int]].skip(1) =~= Seq::<Node>::empty());
                                    assert(texts_of(Seq::<Node>::empty()) == Seq::<
                                        Seq<char>,
                                    >::empty());
                                    if items@[j as int] is Text {
                                        assert(views_of(out@) =~= views_of(before) + seq![
                                            items@[j as int]->Text_0@,
                                        ]);
                                        assert(texts_of(seq![items@[j as int]]) =~= seq![
                                            items@[j as int]->Text_0@,
                                        ]);
                                    } else {
                                        assert(texts_of(seq![items@[j as int]]) =~= Seq::<
                                            Seq<char>,
                                        >::empty());
                                    }
                                    assert(views_of(out@) =~= texts_of(items@.take(j as int + 1)));
                                }
                                j = j + 1;
                            }
                            proof {
                                assert(items@.take(items@.len() as int) =~= items@);
                            }
                            Some(out)
                        },
                        _ => None,
                    }
                },
                None => None,
            }
        },
        _ => None,
    }
}

/// The view of an optional owned string.
pub open spec fn opt_view(o: Option<String>) -> Option<Seq<char>> {
    match o {
        Some(s) => Some(s@),
        None => None,
    }
}

/// The views of an optional list of owned strings.
pub open spec fn tags_view(o: Option<Vec<String>>) -> Option<Seq<Seq<char>>> {
    match o {
        Some(v) => Some(views_of(v@)),
        None => None,
    }
}

/// One front-matter line per tag.
pub open spec fn tag_lines(ts: Seq<Seq<char>>) -> Seq<char>
    decreases ts.len(),
{
    if ts.len() == 0 {
        Seq::empty()
    } else {
        "  - "@ + ts[0] + "\n"@ + tag_lines(ts.skip(1))
    }
}

/// The front-matter block: title (a fixed placeholder when absent), then the
/// tags block (omitted entirely when absent), then the date (a fixed
/// placeholder when absent), between fixed delimiters.
pub open spec fn front_matter_spec(
    title: Option<Seq<char>>,
    tags: Option<Seq<Seq<char>>>,
    date: Option<Seq<char>>,
) -> Seq<char> {
    "---\n"@ + (match title {
        Some(t) => "title: "@ + t + "\n"@,
        None => "title: Untitled\n"@,
    }) + (match tags {
        Some(ts) => "tags:\n"@ + tag_lines(ts),
        None => Seq::<char>::empty(),
    }) + (match date {
        Some(d) => "date: "@ + d + "\n"@,
        None => "date: Unknown\n"@,
    }) + "---\n\n"@
}

proof fn lemma_tag_lines_append(s1: Seq<Seq<char>>, s2: Seq<Seq<char>>)
    ensures
        tag_lines(s1 + s2) == tag_lines(s1) + tag_lines(s2),
    decreases s1.len(),
{
    if s1.len() == 0 {
        assert(s1 + s2 =~= s2);
        assert(tag_lines(s1) + tag_lines(s2) =~= tag_lines(s2));
    } else {
        lemma_tag_lines_append(s1.skip(1), s2);
        assert((s1 + s2).skip(1) =~= s1.skip(1) + s2);
        assert(tag_lines(s1 + s2) =~= tag_lines(s1) + tag_lines(s2));
    }
}

/// Assembles the front-matter block for the given title, tags and date.
pub fn build_front_matter(
    title: &Option<String>,
    tags: &Option<Vec<String>>,
    date: &Option<String>,
) -> (r: String)
    ensures
        r@ == front_matter_spec(opt_view(*title), tags_view(*tags), opt_view(*date)),
{
    let mut fm = String::from_str("---\n");
    match title {
        Some(t) => {
            fm.append("title: ");
            fm.append(t.as_str());
            fm.append("\n");
        },
        None => {
            fm.append("title: Untitled\n");
        },
    }
    match tags {
        Some(ts) => {
            fm.append("tags:\n");
            let ghost head = fm@;
            let mut i: usize = 0;
            proof {
                assert(ts@.take(0) =~= Seq::<String>::empty());
                assert(views_of(ts@).take(0) =~= views_of(ts@.take(0)));
                assert(fm@ =~= head + tag_lines(views_of(ts@).take(0)));
            }
            while i < ts.len()
                invariant
                    i <= ts.len(),
                    fm@ == head + tag_lines(views_of(ts@).take(i as int)),
                decreases ts.len() - i,
            {
                fm.append("  - ");
                fm.append(ts[i].as_str());
                fm.append("\n");
                proof {
                    let tv = views_of(ts@);
                    lemma_tag_lines_append(tv.take(i as int), seq![tv[i as int]]);
                    assert(tv.take(i as int) + seq![tv[i as int]] =~= tv.take(i as int + 1));
                    assert(seq![tv[i as int]].skip(1) =~= Seq::<Seq<char>>::empty());
                    assert(tag_lines(Seq::<Seq<char>>::empty()) == Seq::<char>::empty());
                    assert(tag_lines(seq![tv[i as int]]) =~= "  - "@ + tv[i as int] + "\n"@);
                    assert(fm@ =~= head + tag_lines(tv.take(i as int + 1)));
                }
                i = i + 1;
            }
            proof {
                assert(views_of(ts@).take(ts@.len() as int) =~= views_of(ts@));
            }
        },
        None => {},
    }
    match date {
        Some(d) => {
            fm.append("date: ");
            fm.append(d.as_str());
            fm.append("\n");
        },
        None => {
            fm.append("date: Unknown\n");
        },
    }
    fm.append("---\n\n");
    proof {
        assert(fm@ =~= front_matter_spec(opt_view(*title), tags_view(*tags), opt_view(*date)));
    }
    fm
}

/// The full output document for a parsed tree and an optional
/// last-modification date: front matter assembled from the tree's own title
/// and tags, then the tree rendered from depth zero.
pub open spec fn document_spec(doc: Node, date: Option<Seq<char>>) -> Seq<char> {
    front_matter_spec(title_of(doc), tags_of(doc), date) + render_spec(doc, 0)
}

/// Composes the complete output text for one document. The date is handed in
/// by the caller, who may have obtained it from version control; an absent
/// date falls back to a placeholder inside the front matter.
pub fn compose_output(doc: &Node, date: &Option<String>) -> (r: String)
    ensures
        r@ == document_spec(*doc, opt_view(*date)),
{
    let title = extract_title(doc);
    let tags = extract_tags(doc);
    let fm = build_front_matter(&title, &tags, date);
    let body = render(doc, 0);
    let r = fm.concat(body.as_str());
    proof {
        assert(opt_view(title) == title_of(*doc));
        assert(tags_view(tags) == tags_of(*doc));
    }
    r
}

} // verus!
