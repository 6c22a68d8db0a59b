use theywork_render::iso::{painter_key, painter_order, IsoFootprint, IsoItem, IsoKind};

fn item(tile_x: usize, tile_y: usize, depth: u8, kind: IsoKind) -> IsoItem {
    IsoItem {
        tile_x,
        tile_y,
        footprint: IsoFootprint {
            width: 1,
            depth,
            height: 1,
        },
        kind,
    }
}

#[test]
fn painter_order_puts_nearer_and_taller_items_last() {
    let mut items = vec![
        IsoItem {
            tile_x: 2,
            tile_y: 1,
            footprint: IsoFootprint {
                width: 1,
                depth: 1,
                height: 1,
            },
            kind: IsoKind::Desk(0),
        },
        IsoItem {
            tile_x: 0,
            tile_y: 0,
            footprint: IsoFootprint {
                width: 1,
                depth: 1,
                height: 2,
            },
            kind: IsoKind::Worker(0),
        },
        IsoItem {
            tile_x: 1,
            tile_y: 1,
            footprint: IsoFootprint {
                width: 1,
                depth: 2,
                height: 1,
            },
            kind: IsoKind::MeetingTable,
        },
    ];
    painter_order(&mut items);
    assert_eq!(items[0].kind, IsoKind::Worker(0));
    assert_eq!(items[2].kind, IsoKind::Desk(0));
}

#[test]
fn painter_order_is_stable_and_sorted() {
    let mut items = vec![
        item(1, 0, 1, IsoKind::Chair(1)),
        item(0, 1, 1, IsoKind::Chair(2)),
        item(0, 0, 1, IsoKind::Desk(0)),
        item(0, 0, 1, IsoKind::Plant),
        item(1, 0, 1, IsoKind::Chair(3)),
    ];
    painter_order(&mut items);
    let kinds: Vec<IsoKind> = items.iter().map(|i| i.kind).collect();
    assert_eq!(
        kinds,
        vec![
            IsoKind::Plant,
            IsoKind::Desk(0),
            IsoKind::Chair(1),
            IsoKind::Chair(3),
            IsoKind::Chair(2),
        ]
    );
    for pair in items.windows(2) {
        assert!(painter_key(pair[0]) <= painter_key(pair[1]));
    }
}

#[test]
fn painting_keys_saturate() {
    let far = item(usize::MAX, 3, 2, IsoKind::Manager);
    assert_eq!(painter_key(far), (usize::MAX, 3, 5));
}
