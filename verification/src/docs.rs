//! The API documentation of the REST endpoints: each endpoint's
//! description and tag.
use vstd::prelude::*;

verus! {

/// The documentation of one API operation: its description and its tags.
pub struct TransformOperation {
    pub description: Option<String>,
    pub tags: Vec<String>,
}

/// The view of an operation's documentation.
pub open spec fn op_view(op: TransformOperation) -> (Option<Seq<char>>, Seq<Seq<char>>) {
    (
        match op.description {
            Some(d) => Some(d@),
            None => None,
        },
        op.tags@.map_values(|t: String| t@),
    )
}

impl TransformOperation {
    /// An operation with no documentation yet.
    pub fn new() -> (r: TransformOperation)
        ensures
            op_view(r) == (None::<Seq<char>>, Seq::<Seq<char>>::empty()),
    {
        let r = TransformOperation { description: None, tags: Vec::new() };
        assert(op_view(r).1 =~= Seq::<Seq<char>>::empty());
        r
    }

    /// Sets the description.
    pub fn description(self, desc: &str) -> (r: TransformOperation)
        ensures
            op_view(r) == (Some(desc@), op_view(self).1),
    {
        let mut r = self;
        let ghost tags = op_view(r).1;
        r.description = Some(desc.to_owned());
        assert(op_view(r).1 =~= tags);
        r
    }

    /// Adds a tag.
    pub fn tag(self, tag: &str) -> (r: TransformOperation)
        ensures
            op_view(r) == (op_view(self).0, op_view(self).1.push(tag@)),
    {
        let mut r = self;
        let ghost before = op_view(r);
        r.tags.push(tag.to_owned());
        assert(op_view(r).1 =~= before.1.push(tag@));
        r
    }
}

/// Documentation of the holders endpoint.
pub fn holders_docs(op: TransformOperation) -> (r: TransformOperation)
    ensures
        op_view(r) == (Some("A list of holders for specific token"@), op_view(op).1.push("token"@)),
{
    op.description("A list of holders for specific token").tag("token")
}

/// Documentation of the holders statistics endpoint.
pub fn holders_stats_docs(op: TransformOperation) -> (r: TransformOperation)
    ensures
        op_view(r) == (Some("A stats of holders for specific token"@), op_view(op).1.push("token"@)),
{
    op.description("A stats of holders for specific token").tag("token")
}

/// Documentation of the status endpoint.
pub fn status_docs(op: TransformOperation) -> (r: TransformOperation)
    ensures
        op_view(r) == (Some("Status of the indexer"@), op_view(op).1.push("status"@)),
{
    op.description("Status of the indexer").tag("status")
}

/// Documentation of the token list endpoint.
pub fn tokens_docs(op: TransformOperation) -> (r: TransformOperation)
    ensures
        op_view(r) == (
            Some("A complete list of tokens with sorts, filters and search"@),
            op_view(op).1.push("token"@),
        ),
{
    op.description("A complete list of tokens with sorts, filters and search").tag("token")
}

/// Documentation of the token endpoint.
pub fn token_docs(op: TransformOperation) -> (r: TransformOperation)
    ensures
        op_view(r) == (Some("Detailed information about a token"@), op_view(op).1.push("token"@)),
{
    op.description("Detailed information about a token").tag("token")
}

/// Documentation of the token supplies endpoint.
pub fn token_supplies_docs(op: TransformOperation) -> (r: TransformOperation)
    ensures
        op_view(r) == (
            Some("Batch operation to get token supply for each token from the provided list"@),
            op_view(op).1.push("token"@),
        ),
{
    op.description("Batch operation to get token supply for each token from the provided list").tag("token")
}

/// Documentation of the transfer proof endpoint.
pub fn token_transfer_proof_docs(op: TransformOperation) -> (r: TransformOperation)
    ensures
        op_view(r) == (Some("Verifies a transfer by address and outpoint"@), op_view(op).1.push("token"@)),
{
    op.description("Verifies a transfer by address and outpoint").tag("token")
}

/// Documentation of the token events endpoint.
pub fn token_events_docs(op: TransformOperation) -> (r: TransformOperation)
    ensures
        op_view(r) == (
            Some("A complete list of token events sorted by date of creation"@),
            op_view(op).1.push("token"@),
        ),
{
    op.description("A complete list of token events sorted by date of creation").tag("token")
}

} // verus!
