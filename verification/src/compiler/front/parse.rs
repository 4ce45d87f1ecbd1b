//! The parsing of token streams into syntax trees.
use vstd::prelude::*;
use crate::compiler::front::objects::{BaseOp, Block, Node, TokenStream};

verus! {

/// The node for a token that neither opens nor closes a loop.
pub open spec fn plain_node(op: BaseOp) -> Node {
    match op {
        BaseOp::Add => Node::Add,
        BaseOp::Sub => Node::Sub,
        BaseOp::Mvr => Node::Mvr,
        BaseOp::Mvl => Node::Mvl,
        BaseOp::Out => Node::Out,
        BaseOp::Inp => Node::Inp,
        BaseOp::NewLine => Node::NewLine,
        _ => Node::CharCount,
    }
}

/// Where the enclosing block goes on after the loop whose body starts after
/// position `i`: `i + 1` plus the tokens that the body's parse read (never
/// past the end).
pub open spec fn resume_point(s: Seq<BaseOp>, i: int, body: nat) -> int {
    if i + 1 + body <= s.len() {
        i + 1 + body
    } else {
        s.len() as int
    }
}

/// How many tokens the parse of the block starting at `i` reads: up to and
/// including the `]` that ends the block, or up to the end of the stream;
/// a nested loop counts its `[` and every token its body reads.
pub open spec fn consumed_from(s: Seq<BaseOp>, i: int) -> nat
    decreases s.len() - i,
{
    if i >= s.len() {
        0
    } else if s[i] == BaseOp::End {
        1
    } else if s[i] == BaseOp::Srt {
        let body = consumed_from(s, i + 1);
        1 + body + consumed_from(s, resume_point(s, i, body))
    } else {
        1 + consumed_from(s, i + 1)
    }
}

/// `nodes` is the block that parsing from position `i` yields: plain tokens
/// become their nodes, `[` becomes a loop whose body is the parse of what
/// follows it, and the block ends at a `]` or at the end of the stream.
pub open spec fn parsed_at(s: Seq<BaseOp>, i: int, nodes: Seq<Node>) -> bool
    decreases s.len() - i,
{
    if i >= s.len() {
        nodes.len() == 0
    } else if s[i] == BaseOp::End {
        nodes.len() == 0
    } else if s[i] == BaseOp::Srt {
        let body = consumed_from(s, i + 1);
        &&& nodes.len() > 0
        &&& nodes[0] matches Node::Lop(b) && parsed_at(s, i + 1, b.0@)
        &&& parsed_at(s, resume_point(s, i, body), nodes.drop_first())
    } else {
        &&& nodes.len() > 0
        &&& nodes[0] == plain_node(s[i])
        &&& parsed_at(s, i + 1, nodes.drop_first())
    }
}

/// The count from position `i` never runs past the end of the stream.
pub proof fn lemma_consumed_bounded(s: Seq<BaseOp>, i: int)
    requires
        0 <= i <= s.len(),
    ensures
        consumed_from(s, i) <= s.len() - i,
    decreases s.len() - i,
{
    if i < s.len() {
        if s[i] == BaseOp::End {
        } else if s[i] == BaseOp::Srt {
            lemma_consumed_bounded(s, i + 1);
            let body = consumed_from(s, i + 1);
            lemma_consumed_bounded(s, resume_point(s, i, body));
        } else {
            lemma_consumed_bounded(s, i + 1);
        }
    }
}

/// A stream without loops parses to one node per token, in order, and the
/// parse reads every token.
pub proof fn lemma_parse_without_loops(s: Seq<BaseOp>, i: int, nodes: Seq<Node>)
    requires
        0 <= i <= s.len(),
        forall|k: int| 0 <= k < s.len() ==> s[k] != BaseOp::Srt && s[k] != BaseOp::End,
    ensures
        consumed_from(s, i) == s.len() - i,
        parsed_at(s, i, nodes) <==> nodes == Seq::new((s.len() - i) as nat, |k: int| plain_node(s[i + k])),
    decreases s.len() - i,
{
    let expected = Seq::new((s.len() - i) as nat, |k: int| plain_node(s[i + k]));
    if i < s.len() {
        let tail = if nodes.len() > 0 {
            nodes.drop_first()
        } else {
            Seq::empty()
        };
        lemma_parse_without_loops(s, i + 1, tail);
        let rest = Seq::new((s.len() - (i + 1)) as nat, |k: int| plain_node(s[i + 1 + k]));
        assert(expected.drop_first() =~= rest);
        if parsed_at(s, i, nodes) {
            assert(tail == rest);
            assert forall|k: int| 0 <= k < nodes.len() implies nodes[k] == expected[k] by {
                if k > 0 {
                    assert(nodes[k] == tail[k - 1]);
                }
            }
            assert(nodes =~= expected);
        }
        if nodes == expected {
            assert(parsed_at(s, i + 1, nodes.drop_first()));
        }
    } else {
        assert(expected =~= Seq::<Node>::empty());
        if nodes.len() == 0 {
            assert(nodes =~= expected);
        }
    }
}

/// The tokens a node stands for: a loop is its `[`, its body written out,
/// and its `]`.
pub open spec fn node_tokens(n: Node) -> Seq<BaseOp>
    decreases n,
{
    match n {
        Node::Add => seq![BaseOp::Add],
        Node::Sub => seq![BaseOp::Sub],
        Node::Mvr => seq![BaseOp::Mvr],
        Node::Mvl => seq![BaseOp::Mvl],
        Node::Out => seq![BaseOp::Out],
        Node::Inp => seq![BaseOp::Inp],
        Node::Lop(b) => seq![BaseOp::Srt] + written_out(b.0@) + seq![BaseOp::End],
        Node::CharCount => seq![BaseOp::CharCount],
        Node::NewLine => seq![BaseOp::NewLine],
    }
}

/// A block written out as tokens again, node after node.
pub open spec fn written_out(nodes: Seq<Node>) -> Seq<BaseOp>
    decreases nodes,
{
    if nodes.len() == 0 {
        Seq::empty()
    } else {
        node_tokens(nodes[0]) + written_out(nodes.drop_first())
    }
}

/// The change in loop depth that a token makes.
pub open spec fn depth_step(op: BaseOp) -> int {
    if op == BaseOp::Srt {
        1
    } else if op == BaseOp::End {
        -1
    } else {
        0
    }
}

/// Loops opened minus loops closed by the tokens from `i` up to `j`.
pub open spec fn balance(s: Seq<BaseOp>, i: int, j: int) -> int
    decreases j - i,
{
    if j <= i {
        0
    } else {
        balance(s, i, j - 1) + depth_step(s[j - 1])
    }
}

/// The brackets of the stream balance: no prefix closes more loops than it
/// opened, and every loop is closed at the end.
pub open spec fn balanced(s: Seq<BaseOp>) -> bool {
    &&& forall|n: int| 0 <= n <= s.len() ==> #[trigger] balance(s, 0, n) >= 0
    &&& balance(s, 0, s.len() as int) == 0
}

/// The block parsed from `i` is ended by a `]` of its own (rather than by
/// the end of the stream).
pub open spec fn block_closes(s: Seq<BaseOp>, i: int) -> bool {
    let c = consumed_from(s, i);
    &&& c >= 1
    &&& i + c <= s.len()
    &&& balance(s, i, i + c) == -1
}

/// Balances over adjacent ranges add up.
proof fn lemma_balance_split(s: Seq<BaseOp>, i: int, j: int, k: int)
    requires
        i <= j <= k,
    ensures
        balance(s, i, k) == balance(s, i, j) + balance(s, j, k),
    decreases k - j,
{
    if k > j {
        lemma_balance_split(s, i, j, k - 1);
    }
}

/// A single token changes the balance by its depth step.
proof fn lemma_balance_one(s: Seq<BaseOp>, i: int)
    ensures
        balance(s, i, i + 1) == depth_step(s[i]),
{
    assert(balance(s, i, i) == 0);
}

/// The parse from `i` ends exactly where the balance from `i` first drops
/// to -1, at a `]` of its own; when it never does, the parse reads to the
/// end of the stream.
proof fn lemma_block_extent(s: Seq<BaseOp>, i: int)
    requires
        0 <= i <= s.len(),
    ensures
        i + consumed_from(s, i) <= s.len(),
        forall|m: int| i <= m < i + consumed_from(s, i) ==> #[trigger] balance(s, i, m) >= 0,
        block_closes(s, i) || (i + consumed_from(s, i) == s.len() && balance(s, i, s.len() as int)
            >= 0),
    decreases s.len() - i,
{
    lemma_consumed_bounded(s, i);
    assert(balance(s, i, i) == 0);
    if i < s.len() {
        lemma_balance_one(s, i);
        if s[i] == BaseOp::End {
        } else if s[i] == BaseOp::Srt {
            lemma_block_extent(s, i + 1);
            let body = consumed_from(s, i + 1);
            let r = resume_point(s, i, body);
            assert(r == i + 1 + body);
            lemma_block_extent(s, r);
            let c = consumed_from(s, i);
            assert forall|m: int| i <= m < i + c implies #[trigger] balance(s, i, m) >= 0 by {
                if m > i {
                    lemma_balance_split(s, i, i + 1, m);
                    if m >= r {
                        lemma_balance_split(s, i, r, m);
                        lemma_balance_split(s, i, i + 1, r);
                    } else {
                        assert(balance(s, i + 1, m) >= 0);
                    }
                }
            }
            lemma_balance_split(s, i, i + 1, r);
            if block_closes(s, i + 1) {
                assert(balance(s, i, r) == 0);
                lemma_balance_split(s, i, r, i + c);
                lemma_balance_split(s, i, r, s.len() as int);
            } else {
                assert(r == s.len());
                assert(consumed_from(s, r) == 0);
                lemma_balance_split(s, i, i + 1, s.len() as int);
            }
        } else {
            lemma_block_extent(s, i + 1);
            let c = consumed_from(s, i);
            assert forall|m: int| i <= m < i + c implies #[trigger] balance(s, i, m) >= 0 by {
                if m > i {
                    lemma_balance_split(s, i, i + 1, m);
                }
            }
            lemma_balance_split(s, i, i + 1, i + c);
            lemma_balance_split(s, i, i + 1, s.len() as int);
        }
    }
}

/// The tokens the parse from `i` reads are its tree written out, followed
/// by the `]` that ended the block when it closed, provided every loop that
/// opens from `i` on is closed.
proof fn lemma_written_out(s: Seq<BaseOp>, i: int, nodes: Seq<Node>)
    requires
        0 <= i <= s.len(),
        parsed_at(s, i, nodes),
        forall|p: int| #![trigger s[p]] i <= p < s.len() && s[p] == BaseOp::Srt ==> block_closes(s, p + 1),
    ensures
        s.subrange(i, i + consumed_from(s, i)) == written_out(nodes) + (if block_closes(s, i) {
            seq![BaseOp::End]
        } else {
            Seq::<BaseOp>::empty()
        }),
    decreases s.len() - i,
{
    lemma_block_extent(s, i);
    let c = consumed_from(s, i);
    if i >= s.len() {
        assert(s.subrange(i, i + c) =~= Seq::<BaseOp>::empty());
        assert(written_out(nodes) =~= Seq::<BaseOp>::empty());
    } else {
        lemma_balance_one(s, i);
        if s[i] == BaseOp::End {
            assert(s.subrange(i, i + c) =~= seq![BaseOp::End]);
            assert(written_out(nodes) =~= Seq::<BaseOp>::empty());
        } else if s[i] == BaseOp::Srt {
            let body = consumed_from(s, i + 1);
            let r = resume_point(s, i, body);
            let rest = nodes.drop_first();
            lemma_block_extent(s, i + 1);
            assert(block_closes(s, i + 1));
            assert(r == i + 1 + body);
            if let Node::Lop(b) = nodes[0] {
                lemma_written_out(s, i + 1, b.0@);
                lemma_block_extent(s, r);
                lemma_written_out(s, r, rest);
                let c2 = consumed_from(s, r);
                lemma_balance_split(s, i, i + 1, r);
                lemma_balance_split(s, i, r, i + c);
                assert(balance(s, r, r) == 0);
                assert(block_closes(s, i) == block_closes(s, r));
                assert(node_tokens(nodes[0]) == seq![BaseOp::Srt] + written_out(b.0@) + seq![BaseOp::End]);
                assert(s.subrange(i, i + c) =~= seq![BaseOp::Srt] + s.subrange(i + 1, r) + s.subrange(
                    r,
                    r + c2,
                ));
                assert(s.subrange(i, i + c) =~= written_out(nodes) + (if block_closes(s, i) {
                    seq![BaseOp::End]
                } else {
                    Seq::<BaseOp>::empty()
                }));
            }
        } else {
            let rest = nodes.drop_first();
            lemma_written_out(s, i + 1, rest);
            lemma_block_extent(s, i + 1);
            let c1 = consumed_from(s, i + 1);
            lemma_balance_split(s, i, i + 1, i + c);
            assert(balance(s, i + 1, i + 1) == 0);
            assert(block_closes(s, i) == block_closes(s, i + 1));
            assert(node_tokens(nodes[0]) == seq![s[i]]);
            assert(s.subrange(i, i + c) =~= seq![s[i]] + s.subrange(i + 1, i + 1 + c1));
            assert(s.subrange(i, i + c) =~= written_out(nodes) + (if block_closes(s, i) {
                seq![BaseOp::End]
            } else {
                Seq::<BaseOp>::empty()
            }));
        }
    }
}

/// Parsing a stream whose brackets balance reads every token, and the tree
/// it builds, written out again, is the stream: the tree stands for exactly
/// the program's tokens.
pub proof fn lemma_parse_round_trip(s: Seq<BaseOp>, nodes: Seq<Node>)
    requires
        balanced(s),
        parsed_at(s, 0, nodes),
    ensures
        consumed_from(s, 0) == s.len(),
        written_out(nodes) == s,
{
    assert forall|p: int| #![trigger s[p]] 0 <= p < s.len() && s[p] == BaseOp::Srt implies block_closes(
        s,
        p + 1,
    ) by {
        lemma_block_extent(s, p + 1);
        lemma_balance_split(s, 0, p, s.len() as int);
        lemma_balance_split(s, p, p + 1, s.len() as int);
        lemma_balance_one(s, p);
        assert(balance(s, 0, p) >= 0);
    }
    lemma_block_extent(s, 0);
    if block_closes(s, 0) {
        assert(balance(s, 0, consumed_from(s, 0) as int) >= 0);
    }
    lemma_written_out(s, 0, nodes);
    assert(s.subrange(0, s.len() as int) =~= s);
}

fn plain_node_of(op: BaseOp) -> (n: Node)
    ensures
        n == plain_node(op),
{
    match op {
        BaseOp::Add => Node::Add,
        BaseOp::Sub => Node::Sub,
        BaseOp::Mvr => Node::Mvr,
        BaseOp::Mvl => Node::Mvl,
        BaseOp::Out => Node::Out,
        BaseOp::Inp => Node::Inp,
        BaseOp::NewLine => Node::NewLine,
        _ => Node::CharCount,
    }
}

/// Parses the block that starts at position `i`.
fn parse_from(tokens: &Vec<BaseOp>, i: usize) -> (r: (Block, usize))
    requires
        i <= tokens@.len(),
    ensures
        parsed_at(tokens@, i as int, r.0.0@),
        r.1 == consumed_from(tokens@, i as int),
    decreases tokens@.len() - i,
{
    let ghost s = tokens@;
    let mut nodes: Vec<Node> = Vec::new();
    let mut j: usize = i;
    let mut count: usize = 0;
    while j < tokens.len()
        invariant
            s == tokens@,
            i <= j <= s.len(),
            count <= j - i,
            count + consumed_from(s, j as int) == consumed_from(s, i as int),
            forall|rest: Seq<Node>|
                #[trigger] parsed_at(s, j as int, rest) ==> parsed_at(s, i as int, nodes@ + rest),
        decreases s.len() - j,
    {
        let op = tokens[j];
        let ghost before = nodes@;
        count = count + 1;
        if op == BaseOp::End {
            proof {
                assert(parsed_at(s, j as int, Seq::<Node>::empty()));
                assert(nodes@ + Seq::<Node>::empty() =~= nodes@);
            }
            return (Block(nodes), count);
        } else if op == BaseOp::Srt {
            let (inner, k) = parse_from(tokens, j + 1);
            proof {
                lemma_consumed_bounded(s, j + 1);
            }
            let next: usize = j + 1 + k;
            count = count + k;
            assert(next == resume_point(s, j as int, k as nat));
            let ghost node = Node::Lop(inner);
            nodes.push(Node::Lop(inner));
            proof {
                assert forall|rest: Seq<Node>| #[trigger] parsed_at(s, next as int, rest) implies parsed_at(
                    s,
                    i as int,
                    nodes@ + rest,
                ) by {
                    let whole = seq![node] + rest;
                    assert(whole.drop_first() =~= rest);
                    assert(parsed_at(s, j as int, whole));
                    assert(before + whole =~= nodes@ + rest);
                }
            }
            j = next;
        } else {
            let node = plain_node_of(op);
            nodes.push(node);
            proof {
                assert forall|rest: Seq<Node>| #[trigger] parsed_at(s, j + 1, rest) implies parsed_at(
                    s,
                    i as int,
                    nodes@ + rest,
                ) by {
                    let whole = seq![node] + rest;
                    assert(whole.drop_first() =~= rest);
                    assert(parsed_at(s, j as int, whole));
                    assert(before + whole =~= nodes@ + rest);
                }
            }
            j = j + 1;
        }
    }
    proof {
        assert(parsed_at(s, j as int, Seq::<Node>::empty()));
        assert(nodes@ + Seq::<Node>::empty() =~= nodes@);
    }
    (Block(nodes), count)
}

impl TokenStream {
    /// Parses the stream of tokens and turns it into a syntax tree.
    ///
    /// Returns the tree of the top-level block and the number of tokens the
    /// parse read (see [`consumed_from`]): a `]` that closes no loop ends the
    /// parse. The stream is left as it was.
    pub fn parse(&mut self) -> (r: (Block, usize))
        ensures
            final(self).0@ == old(self).0@,
            parsed_at(old(self).0@, 0, r.0.0@),
            r.1 == consumed_from(old(self).0@, 0),
    {
        parse_from(&self.0, 0)
    }
}

/// Writing out a block node by node: the first `i + 1` nodes written out
/// are the first `i` written out, then the tokens of node `i`.
proof fn lemma_written_out_take(nodes: Seq<Node>, i: int)
    requires
        0 <= i < nodes.len(),
    ensures
        written_out(nodes.take(i + 1)) == written_out(nodes.take(i)) + node_tokens(nodes[i]),
    decreases i,
{
    if i == 0 {
        assert(nodes.take(1).drop_first() =~= Seq::<Node>::empty());
        assert(nodes.take(1)[0] == nodes[0]);
        assert(written_out(Seq::<Node>::empty()) =~= Seq::<BaseOp>::empty());
        assert(written_out(nodes.take(0)) =~= Seq::<BaseOp>::empty());
        assert(written_out(nodes.take(1)) =~= node_tokens(nodes[0]) + Seq::<BaseOp>::empty());
        assert(node_tokens(nodes[0]) + Seq::<BaseOp>::empty() =~= node_tokens(nodes[0]));
    } else {
        let rest = nodes.drop_first();
        lemma_written_out_take(rest, i - 1);
        assert(nodes.take(i + 1).drop_first() =~= rest.take(i));
        assert(nodes.take(i).drop_first() =~= rest.take(i - 1));
        assert(nodes.take(i + 1)[0] == nodes[0]);
        assert(nodes.take(i)[0] == nodes[0]);
        assert(rest[i - 1] == nodes[i]);
        assert(written_out(nodes.take(i + 1)) == node_tokens(nodes[0]) + written_out(rest.take(i)));
        assert(written_out(nodes.take(i)) == node_tokens(nodes[0]) + written_out(rest.take(i - 1)));
    }
}

/// Appends the tokens a node stands for.
fn write_node(n: &Node, out: &mut Vec<BaseOp>)
    ensures
        final(out)@ == old(out)@ + node_tokens(*n),
    decreases n,
{
    match n {
        Node::Add => out.push(BaseOp::Add),
        Node::Sub => out.push(BaseOp::Sub),
        Node::Mvr => out.push(BaseOp::Mvr),
        Node::Mvl => out.push(BaseOp::Mvl),
        Node::Out => out.push(BaseOp::Out),
        Node::Inp => out.push(BaseOp::Inp),
        Node::Lop(b) => {
            out.push(BaseOp::Srt);
            write_block(b, out);
            out.push(BaseOp::End);
        },
        Node::CharCount => out.push(BaseOp::CharCount),
        Node::NewLine => out.push(BaseOp::NewLine),
    }
}

/// Appends the tokens a block stands for, node after node.
fn write_block(b: &Block, out: &mut Vec<BaseOp>)
    ensures
        final(out)@ == old(out)@ + written_out(b.0@),
    decreases b,
{
    let ghost start = out@;
    let mut i: usize = 0;
    while i < b.0.len()
        invariant
            i <= b.0@.len(),
            out@ == start + written_out(b.0@.take(i as int)),
        decreases b.0@.len() - i,
    {
        proof {
            lemma_written_out_take(b.0@, i as int);
        }
        write_node(&b.0[i], out);
        i = i + 1;
    }
    assert(b.0@.take(b.0@.len() as int) =~= b.0@);
}

impl Block {
    /// The tokens the tree stands for, written out again: a loop is its
    /// `[`, its body and its `]`.
    pub fn tokens(&self) -> (t: TokenStream)
        ensures
            t.0@ == written_out(self.0@),
    {
        let mut out: Vec<BaseOp> = Vec::new();
        write_block(self, &mut out);
        assert(out@ =~= written_out(self.0@));
        TokenStream(out)
    }
}

} // verus!
