//! Brand ethics seeding rules: the fixed dimensions of every company poll and
//! the evidence cards built from an LLM's pro/con claims.
use vstd::prelude::*;

use crate::sim::client::EvidenceBody;
use crate::sim::llm::DimensionEvidence;
use crate::text::{str_equals, string_of};

verus! {

/// Name of the brand ethics room.
pub open spec fn spec_room_name() -> Seq<char> {
    "Brand Ethics"@
}

/// Name of the brand ethics room.
pub fn room_name() -> (r: &'static str)
    ensures
        r@ == spec_room_name(),
{
    "Brand Ethics"
}

/// Number of fixed dimensions of every brand ethics poll.
pub const DIMENSION_COUNT: usize = 5;

/// The `k`-th fixed dimension: name, low-end label, high-end label.
pub open spec fn spec_dimension(k: int) -> (Seq<char>, Seq<char>, Seq<char>) {
    if k == 0 {
        ("Labor Practices"@, "Exploitative"@, "Exemplary"@)
    } else if k == 1 {
        ("Environmental Impact"@, "Destructive"@, "Regenerative"@)
    } else if k == 2 {
        ("Consumer Trust"@, "Deceptive"@, "Transparent"@)
    } else if k == 3 {
        ("Community Impact"@, "Extractive"@, "Invested"@)
    } else {
        ("Corporate Governance"@, "Self-Serving"@, "Accountable"@)
    }
}

/// The `k`-th fixed dimension: name, low-end label, high-end label.
pub fn dimension(k: usize) -> (r: (&'static str, &'static str, &'static str))
    requires
        k < DIMENSION_COUNT,
    ensures
        (r.0@, r.1@, r.2@) == spec_dimension(k as int),
{
    if k == 0 {
        ("Labor Practices", "Exploitative", "Exemplary")
    } else if k == 1 {
        ("Environmental Impact", "Destructive", "Regenerative")
    } else if k == 2 {
        ("Consumer Trust", "Deceptive", "Transparent")
    } else if k == 3 {
        ("Community Impact", "Extractive", "Invested")
    } else {
        ("Corporate Governance", "Self-Serving", "Accountable")
    }
}

/// The evidence cards for one dimension: every positive claim as a `pro`
/// card, then every negative claim as a `con` card, none with a source.
pub fn evidence_cards(evidence: &DimensionEvidence) -> (cards: Vec<EvidenceBody>)
    ensures
        cards@.len() == evidence.pro@.len() + evidence.con@.len(),
        forall|i: int|
            0 <= i < evidence.pro@.len() ==> {
                let c = #[trigger] cards@[i];
                c.stance@ == "pro"@ && c.claim@ == evidence.pro@[i]@ && c.source is None
            },
        forall|i: int|
            0 <= i < evidence.con@.len() ==> {
                let c = #[trigger] cards@[evidence.pro@.len() + i];
                c.stance@ == "con"@ && c.claim@ == evidence.con@[i]@ && c.source is None
            },
{
    let mut cards: Vec<EvidenceBody> = Vec::new();
    let mut i: usize = 0;
    while i < evidence.pro.len()
        invariant
            i <= evidence.pro@.len(),
            cards@.len() == i,
            forall|j: int|
                0 <= j < i ==> {
                    let c = #[trigger] cards@[j];
                    c.stance@ == "pro"@ && c.claim@ == evidence.pro@[j]@ && c.source is None
                },
        decreases evidence.pro@.len() - i,
    {
        cards.push(
            EvidenceBody {
                stance: string_of("pro"),
                claim: evidence.pro[i].clone(),
                source: None,
            },
        );
        i += 1;
    }
    let mut k: usize = 0;
    while k < evidence.con.len()
        invariant
            k <= evidence.con@.len(),
            cards@.len() == evidence.pro@.len() + k,
            forall|j: int|
                0 <= j < evidence.pro@.len() ==> {
                    let c = #[trigger] cards@[j];
                    c.stance@ == "pro"@ && c.claim@ == evidence.pro@[j]@ && c.source is None
                },
            forall|j: int|
                0 <= j < k ==> {
                    let c = #[trigger] cards@[evidence.pro@.len() + j];
                    c.stance@ == "con"@ && c.claim@ == evidence.con@[j]@ && c.source is None
                },
        decreases evidence.con@.len() - k,
    {
        cards.push(
            EvidenceBody {
                stance: string_of("con"),
                claim: evidence.con[k].clone(),
                source: None,
            },
        );
        k += 1;
    }
    cards
}


/// Whether the brand ethics room exists among rooms with these names, in
/// which case seeding is skipped.
pub fn brand_room_exists(room_names: &Vec<String>) -> (r: bool)
    ensures
        r == exists|i: int| 0 <= i < room_names@.len() && #[trigger] room_names@[i]@ == spec_room_name(),
{
    let mut i: usize = 0;
    while i < room_names.len()
        invariant
            i <= room_names@.len(),
            forall|j: int| 0 <= j < i ==> #[trigger] room_names@[j]@ != spec_room_name(),
        decreases room_names@.len() - i,
    {
        if str_equals(room_names[i].as_str(), room_name()) {
            return true;
        }
        i = i + 1;
    }
    false
}


/// A call the brand ethics seeding makes, in the order it makes them.
#[derive(Debug, Clone, Copy, PartialEq, Eq, Structural)]
pub enum BrandSeedCall {
    /// List the rooms, to see whether the brand ethics room exists.
    ListRooms,
    /// Ask the language model to curate `count` companies.
    CurateCompanies { count: usize },
    /// Create the brand ethics room.
    CreateRoom,
    /// Ask the language model for the evidence on company `company`.
    GenerateEvidence { company: usize },
    /// Create the poll of company `company`.
    CreatePoll { company: usize },
    /// Add fixed dimension `dimension` to the poll of company `company`.
    AddDimension { company: usize, dimension: usize },
    /// Add the evidence cards of that dimension (only made when there are any).
    AddEvidence { company: usize, dimension: usize },
}

/// What a call of the seeding gave back, as far as the next call depends on it.
#[derive(Debug, Clone, Copy, PartialEq, Eq, Structural)]
pub enum BrandSeedEvent {
    /// The room list was read; `room_exists` tells whether the brand ethics
    /// room is among it (see [`brand_room_exists`]).
    Rooms { room_exists: bool },
    /// The call succeeded and its result does not steer the seeding.
    Completed,
    /// A dimension was added; `has_cards` tells whether the evidence for it
    /// holds any card.
    DimensionAdded { has_cards: bool },
}

/// The next thing the seeding does.
#[derive(Debug, Clone, Copy, PartialEq, Eq, Structural)]
pub enum BrandSeedStep {
    /// Make this call.
    Call(BrandSeedCall),
    /// Stop: the seeding is complete (or was done before).
    Finished,
}

/// The step after the last dimension-related call for `dimension` of
/// `company`: the next dimension, else the next company, else the end.
pub open spec fn after_dimension(companies: nat, company: nat, dimension: nat) -> BrandSeedStep {
    if dimension + 1 < DIMENSION_COUNT {
        BrandSeedStep::Call(BrandSeedCall::AddDimension { company: company as usize, dimension: (dimension + 1) as usize })
    } else if company + 1 < companies {
        BrandSeedStep::Call(BrandSeedCall::GenerateEvidence { company: (company + 1) as usize })
    } else {
        BrandSeedStep::Finished
    }
}

/// The seeding's order of calls. It starts by listing the rooms and stops
/// at once when the brand ethics room exists; else it curates
/// `company_count` companies, creates the room, and for each of the
/// `companies` curated generates the evidence, creates the poll and adds
/// each fixed dimension, followed by its evidence cards when there are any.
/// An event that does not answer the call made ends the seeding.
pub open spec fn brand_seed_next(
    company_count: usize,
    companies: usize,
    done: BrandSeedCall,
    event: BrandSeedEvent,
) -> BrandSeedStep {
    match (done, event) {
        (BrandSeedCall::ListRooms, BrandSeedEvent::Rooms { room_exists }) => if room_exists {
            BrandSeedStep::Finished
        } else {
            BrandSeedStep::Call(BrandSeedCall::CurateCompanies { count: company_count })
        },
        (BrandSeedCall::CurateCompanies { .. }, BrandSeedEvent::Completed) => BrandSeedStep::Call(
            BrandSeedCall::CreateRoom,
        ),
        (BrandSeedCall::CreateRoom, BrandSeedEvent::Completed) => if companies > 0 {
            BrandSeedStep::Call(BrandSeedCall::GenerateEvidence { company: 0 })
        } else {
            BrandSeedStep::Finished
        },
        (BrandSeedCall::GenerateEvidence { company }, BrandSeedEvent::Completed) => BrandSeedStep::Call(
            BrandSeedCall::CreatePoll { company },
        ),
        (BrandSeedCall::CreatePoll { company }, BrandSeedEvent::Completed) => BrandSeedStep::Call(
            BrandSeedCall::AddDimension { company, dimension: 0 },
        ),
        (BrandSeedCall::AddDimension { company, dimension }, BrandSeedEvent::DimensionAdded { has_cards }) => if has_cards {
            BrandSeedStep::Call(BrandSeedCall::AddEvidence { company, dimension })
        } else {
            after_dimension(companies as nat, company as nat, dimension as nat)
        },
        (BrandSeedCall::AddEvidence { company, dimension }, BrandSeedEvent::Completed) => after_dimension(
            companies as nat,
            company as nat,
            dimension as nat,
        ),
        _ => BrandSeedStep::Finished,
    }
}

/// The first call of the seeding: listing the rooms.
pub fn brand_seed_start() -> (call: BrandSeedCall)
    ensures
        call == BrandSeedCall::ListRooms,
{
    BrandSeedCall::ListRooms
}

fn step_after_dimension(companies: usize, company: usize, dimension: usize) -> (r: BrandSeedStep)
    ensures
        r == after_dimension(companies as nat, company as nat, dimension as nat),
{
    if dimension < DIMENSION_COUNT - 1 {
        BrandSeedStep::Call(BrandSeedCall::AddDimension { company, dimension: dimension + 1 })
    } else if company < companies && company + 1 < companies {
        BrandSeedStep::Call(BrandSeedCall::GenerateEvidence { company: company + 1 })
    } else {
        BrandSeedStep::Finished
    }
}

/// The next step of the seeding after call `done` answered with `event`;
/// `company_count` companies are asked for and `companies` were curated.
pub fn brand_seed_next_step(
    company_count: usize,
    companies: usize,
    done: BrandSeedCall,
    event: BrandSeedEvent,
) -> (step: BrandSeedStep)
    ensures
        step == brand_seed_next(company_count, companies, done, event),
{
    match (done, event) {
        (BrandSeedCall::ListRooms, BrandSeedEvent::Rooms { room_exists }) => if room_exists {
            BrandSeedStep::Finished
        } else {
            BrandSeedStep::Call(BrandSeedCall::CurateCompanies { count: company_count })
        },
        (BrandSeedCall::CurateCompanies { .. }, BrandSeedEvent::Completed) => BrandSeedStep::Call(
            BrandSeedCall::CreateRoom,
        ),
        (BrandSeedCall::CreateRoom, BrandSeedEvent::Completed) => if companies > 0 {
            BrandSeedStep::Call(BrandSeedCall::GenerateEvidence { company: 0 })
        } else {
            BrandSeedStep::Finished
        },
        (BrandSeedCall::GenerateEvidence { company }, BrandSeedEvent::Completed) => BrandSeedStep::Call(
            BrandSeedCall::CreatePoll { company },
        ),
        (BrandSeedCall::CreatePoll { company }, BrandSeedEvent::Completed) => BrandSeedStep::Call(
            BrandSeedCall::AddDimension { company, dimension: 0 },
        ),
        (BrandSeedCall::AddDimension { company, dimension }, BrandSeedEvent::DimensionAdded { has_cards }) => if has_cards {
            BrandSeedStep::Call(BrandSeedCall::AddEvidence { company, dimension })
        } else {
            step_after_dimension(companies, company, dimension)
        },
        (BrandSeedCall::AddEvidence { company, dimension }, BrandSeedEvent::Completed) => step_after_dimension(
            companies,
            company,
            dimension,
        ),
        _ => BrandSeedStep::Finished,
    }
}

/// Seeding is idempotent: once the brand ethics room exists, the seeding
/// stops right after listing the rooms, so it makes no call of the language
/// model (and so uses no tokens) and creates nothing.
pub proof fn lemma_existing_room_stops_seeding(company_count: usize, companies: usize)
    ensures
        brand_seed_next(
            company_count,
            companies,
            BrandSeedCall::ListRooms,
            BrandSeedEvent::Rooms { room_exists: true },
        ) == BrandSeedStep::Finished,
{
}


/// Every dimension's evidence is inserted: whatever the company and the
/// dimension, a dimension added with cards is followed by adding its
/// evidence, and the seeding then goes on exactly as after a dimension
/// without cards.
pub proof fn lemma_every_dimension_gets_its_evidence(
    company_count: usize,
    companies: usize,
    company: usize,
    dimension: usize,
)
    ensures
        brand_seed_next(
            company_count,
            companies,
            BrandSeedCall::AddDimension { company, dimension },
            BrandSeedEvent::DimensionAdded { has_cards: true },
        ) == BrandSeedStep::Call(BrandSeedCall::AddEvidence { company, dimension }),
        brand_seed_next(
            company_count,
            companies,
            BrandSeedCall::AddEvidence { company, dimension },
            BrandSeedEvent::Completed,
        ) == brand_seed_next(
            company_count,
            companies,
            BrandSeedCall::AddDimension { company, dimension },
            BrandSeedEvent::DimensionAdded { has_cards: false },
        ),
{
}

/// Every fixed dimension of every curated company's poll is added, in
/// order: after dimension `d` of company `c` comes dimension `d + 1`; after
/// the last dimension comes the next company's evidence, and the seeding
/// ends only after the last company; each company's poll starts at its
/// first dimension, right after its evidence.
pub proof fn lemma_dimensions_and_companies_in_order(
    company_count: usize,
    companies: usize,
    company: usize,
    dimension: usize,
)
    requires
        dimension < DIMENSION_COUNT,
        company < companies,
    ensures
        dimension + 1 < DIMENSION_COUNT ==> brand_seed_next(
            company_count,
            companies,
            BrandSeedCall::AddDimension { company, dimension },
            BrandSeedEvent::DimensionAdded { has_cards: false },
        ) == BrandSeedStep::Call(BrandSeedCall::AddDimension { company, dimension: (dimension + 1) as usize }),
        dimension + 1 == DIMENSION_COUNT && company + 1 < companies ==> brand_seed_next(
            company_count,
            companies,
            BrandSeedCall::AddDimension { company, dimension },
            BrandSeedEvent::DimensionAdded { has_cards: false },
        ) == BrandSeedStep::Call(BrandSeedCall::GenerateEvidence { company: (company + 1) as usize }),
        dimension + 1 == DIMENSION_COUNT && company + 1 == companies ==> brand_seed_next(
            company_count,
            companies,
            BrandSeedCall::AddDimension { company, dimension },
            BrandSeedEvent::DimensionAdded { has_cards: false },
        ) == BrandSeedStep::Finished,
        brand_seed_next(
            company_count,
            companies,
            BrandSeedCall::GenerateEvidence { company },
            BrandSeedEvent::Completed,
        ) == BrandSeedStep::Call(BrandSeedCall::CreatePoll { company }),
        brand_seed_next(
            company_count,
            companies,
            BrandSeedCall::CreatePoll { company },
            BrandSeedEvent::Completed,
        ) == BrandSeedStep::Call(BrandSeedCall::AddDimension { company, dimension: 0 }),
{
}

/// Seeding a room that does not exist yet curates the requested number of
/// companies, creates the room, and starts on the first company when any
/// was curated.
pub proof fn lemma_new_room_is_seeded(company_count: usize, companies: usize)
    ensures
        brand_seed_next(
            company_count,
            companies,
            BrandSeedCall::ListRooms,
            BrandSeedEvent::Rooms { room_exists: false },
        ) == BrandSeedStep::Call(BrandSeedCall::CurateCompanies { count: company_count }),
        brand_seed_next(
            company_count,
            companies,
            BrandSeedCall::CurateCompanies { count: company_count },
            BrandSeedEvent::Completed,
        ) == BrandSeedStep::Call(BrandSeedCall::CreateRoom),
        companies > 0 ==> brand_seed_next(
            company_count,
            companies,
            BrandSeedCall::CreateRoom,
            BrandSeedEvent::Completed,
        ) == BrandSeedStep::Call(BrandSeedCall::GenerateEvidence { company: 0 }),
{
}

} // verus!
