use vstd::prelude::*;

verus! {

/// Relies on rowan::GreenNode: the immutable, structurally shared syntax
/// tree the external tree service produces.  Opaque here: the library's
/// contracts speak of the instruction log that built it.
#[verifier::external_type_specification]
#[verifier::external_body]
pub struct ExGreenNode(rowan::GreenNode);

/// Relies on rowan::GreenNodeBuilder: the external tree-construction
/// service driven by `start_node` / `token` / `finish_node`.
#[verifier::external_type_specification]
#[verifier::external_body]
pub struct ExGreenNodeBuilder<'a>(rowan::GreenNodeBuilder<'a>);

/// The sequence of instructions a builder has received so far: an op tag
/// (0 opens a node, 1 adds a token, 2 finishes a node), the raw kind, and
/// the token text (empty for opens and finishes).
pub uninterp spec fn builder_log(b: rowan::GreenNodeBuilder<'static>) -> Seq<(u16, u16, Seq<char>)>;

/// The UTF-8 byte length of a text: the size the tree service measures.
pub open spec fn text_bytes(s: Seq<char>) -> int {
    vstd::utf8::encode_utf8(s).len() as int
}

/// Total byte length of all token texts among the first `k` instructions.
pub open spec fn log_bytes(log: Seq<(u16, u16, Seq<char>)>, k: int) -> int
    decreases k,
{
    if k <= 0 {
        0
    } else {
        log_bytes(log, k - 1) + if log[k - 1].0 == 1 {
            text_bytes(log[k - 1].2)
        } else {
            0int
        }
    }
}

/// Number of node-opening instructions among the first `k`.
pub open spec fn log_opens(log: Seq<(u16, u16, Seq<char>)>, k: int) -> int
    decreases k,
{
    if k <= 0 {
        0
    } else {
        log_opens(log, k - 1) + if log[k - 1].0 == 0 {
            1int
        } else {
            0int
        }
    }
}

/// Number of node-finishing instructions among the first `k`.
pub open spec fn log_closes(log: Seq<(u16, u16, Seq<char>)>, k: int) -> int
    decreases k,
{
    if k <= 0 {
        0
    } else {
        log_closes(log, k - 1) + if log[k - 1].0 == 2 {
            1int
        } else {
            0int
        }
    }
}

/// A log that builds exactly one finished tree: it starts by opening a
/// node, every proper prefix leaves a node open, and at the end every
/// opened node has been finished.
pub open spec fn log_tree_shape(log: Seq<(u16, u16, Seq<char>)>) -> bool {
    &&& log.len() >= 1
    &&& log[0].0 == 0
    &&& log_opens(log, log.len() as int) == log_closes(log, log.len() as int)
    &&& forall|k: int|
        0 < k < log.len() ==> #[trigger] log_closes(log, k) < log_opens(log, k)
}

/// Relies on rowan::GreenNodeBuilder::new: a builder with nothing in it.
#[verifier::external_body]
pub fn builder_new() -> (r: rowan::GreenNodeBuilder<'static>)
    ensures
        builder_log(r) == Seq::<(u16, u16, Seq<char>)>::empty(),
{
    rowan::GreenNodeBuilder::new()
}

/// Relies on rowan::GreenNodeBuilder::start_node: pushes the kind onto the
/// open-node stack; it cannot fail.
#[verifier::external_body]
pub fn builder_start_node(b: &mut rowan::GreenNodeBuilder<'static>, raw: u16)
    ensures
        builder_log(*final(b)) == builder_log(*old(b)).push((0u16, raw, Seq::<char>::empty())),
{
    b.start_node(rowan::SyntaxKind(raw));
}

/// Relies on rowan::GreenNodeBuilder::token: adds one leaf with this exact
/// text to the current branch; the call itself cannot fail.  The tree
/// service measures text in 32-bit sizes, so the running total of token
/// text bytes must stay within `u32`, or building the enclosing nodes
/// panics later.
#[verifier::external_body]
pub fn builder_token(b: &mut rowan::GreenNodeBuilder<'static>, raw: u16, text: &str)
    requires
        log_bytes(builder_log(*old(b)), builder_log(*old(b)).len() as int) + text_bytes(text@)
            <= u32::MAX,
    ensures
        builder_log(*final(b)) == builder_log(*old(b)).push((1u16, raw, text@)),
{
    b.token(rowan::SyntaxKind(raw), text);
}

/// Relies on rowan::GreenNodeBuilder::finish_node: pops the innermost open
/// node; it panics when no node is open, so one must be.  Building the node
/// converts each child's byte width into a 32-bit size and sums them, so
/// the total token text logged so far must fit in `u32`.
#[verifier::external_body]
pub fn builder_finish_node(b: &mut rowan::GreenNodeBuilder<'static>)
    requires
        log_closes(builder_log(*old(b)), builder_log(*old(b)).len() as int) < log_opens(
            builder_log(*old(b)),
            builder_log(*old(b)).len() as int,
        ),
        log_bytes(builder_log(*old(b)), builder_log(*old(b)).len() as int) <= u32::MAX,
    ensures
        builder_log(*final(b)) == builder_log(*old(b)).push((2u16, 0u16, Seq::<char>::empty())),
{
    b.finish_node();
}

/// Relies on rowan::GreenNodeBuilder::finish: returns the finished tree; it
/// panics unless exactly one completed node is left, which the single-tree
/// shape of the received instructions guarantees, and it builds the root
/// node, whose 32-bit width is the sum of all logged token text bytes.
#[verifier::external_body]
pub fn builder_finish(b: rowan::GreenNodeBuilder<'static>) -> rowan::GreenNode
    requires
        log_tree_shape(builder_log(b)),
        log_bytes(builder_log(b), builder_log(b).len() as int) <= u32::MAX,
{
    b.finish()
}

} // verus!
