use tc_service::sim::brand::{
    brand_seed_next_step, brand_seed_start, BrandSeedCall, BrandSeedEvent, BrandSeedStep,
};

fn walk(company_count: usize, companies: usize, room_exists: bool, has_cards: impl Fn(usize, usize) -> bool) -> Vec<BrandSeedCall> {
    let mut calls = vec![];
    let mut call = brand_seed_start();
    loop {
        calls.push(call);
        let event = match call {
            BrandSeedCall::ListRooms => BrandSeedEvent::Rooms { room_exists },
            BrandSeedCall::AddDimension { company, dimension } => {
                BrandSeedEvent::DimensionAdded { has_cards: has_cards(company, dimension) }
            }
            _ => BrandSeedEvent::Completed,
        };
        match brand_seed_next_step(company_count, companies, call, event) {
            BrandSeedStep::Call(next) => call = next,
            BrandSeedStep::Finished => return calls,
        }
    }
}

#[test]
fn existing_brand_room_stops_seeding_after_listing() {
    assert_eq!(walk(5, 5, true, |_, _| true), vec![BrandSeedCall::ListRooms]);
}

#[test]
fn seeding_order_for_one_company() {
    let calls = walk(1, 1, false, |_, d| d == 0);
    let mut expected = vec![
        BrandSeedCall::ListRooms,
        BrandSeedCall::CurateCompanies { count: 1 },
        BrandSeedCall::CreateRoom,
        BrandSeedCall::GenerateEvidence { company: 0 },
        BrandSeedCall::CreatePoll { company: 0 },
        BrandSeedCall::AddDimension { company: 0, dimension: 0 },
        BrandSeedCall::AddEvidence { company: 0, dimension: 0 },
    ];
    for d in 1..5 {
        expected.push(BrandSeedCall::AddDimension { company: 0, dimension: d });
    }
    assert_eq!(calls, expected);
}

#[test]
fn seeding_visits_every_curated_company() {
    let calls = walk(3, 2, false, |_, _| false);
    // list, curate, room, then per company: evidence, poll, 5 dimensions.
    assert_eq!(calls.len(), 3 + 2 * 7);
    assert_eq!(calls[10], BrandSeedCall::GenerateEvidence { company: 1 });
    assert_eq!(calls[1], BrandSeedCall::CurateCompanies { count: 3 });
}

#[test]
fn seeding_without_curated_companies_ends_after_the_room() {
    assert_eq!(
        walk(3, 0, false, |_, _| false),
        vec![
            BrandSeedCall::ListRooms,
            BrandSeedCall::CurateCompanies { count: 3 },
            BrandSeedCall::CreateRoom,
        ]
    );
}
