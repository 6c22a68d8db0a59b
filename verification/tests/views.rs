use theywork_render::views::{
    color_depth_label, effective_projection, Channel, ColorDepth, PhoneChannel, Projection, WorkTab,
};

#[test]
fn projection_cycle_is_reversible_for_every_view() {
    for projection in [
        Projection::Auto,
        Projection::Iso,
        Projection::TopDown,
        Projection::Side,
        Projection::List,
    ] {
        assert_eq!(projection.next().previous(), projection);
        assert_eq!(projection.previous().next(), projection);
    }
}

#[test]
fn projection_cycle_visits_every_view_once() {
    let mut seen = Vec::new();
    let mut projection = Projection::Auto;
    for _ in 0..5 {
        assert!(!seen.contains(&projection));
        seen.push(projection);
        projection = projection.next();
    }
    assert_eq!(projection, Projection::Auto);
    assert_eq!(Projection::TopDown.label(), "top-down");
}

#[test]
fn auto_projection_chooses_room_then_degrades_by_available_space() {
    assert_eq!(
        effective_projection(Projection::Auto, 160, 43),
        Projection::Iso
    );
    assert_eq!(
        effective_projection(Projection::Auto, 96, 25),
        Projection::TopDown
    );
    assert_eq!(
        effective_projection(Projection::Auto, 80, 19),
        Projection::TopDown
    );
    assert_eq!(
        effective_projection(Projection::Auto, 32, 7),
        Projection::List
    );
    assert_eq!(
        effective_projection(Projection::Auto, 110, 20),
        Projection::TopDown
    );
    assert_eq!(
        effective_projection(Projection::Auto, 60, 13),
        Projection::Side
    );
    assert_eq!(
        effective_projection(Projection::Auto, 59, 19),
        Projection::List
    );
    assert_eq!(
        effective_projection(Projection::Side, 80, 50),
        Projection::Side
    );
}

#[test]
fn auto_projection_never_stays_automatic() {
    for width in [0u16, 40, 60, 80, 128, 200] {
        for height in [0u16, 13, 16, 36, 60] {
            let chosen = effective_projection(Projection::Auto, width, height);
            assert_ne!(chosen, Projection::Auto);
            assert_eq!(effective_projection(chosen, width, height), chosen);
        }
    }
}

#[test]
fn channels_cycle_in_both_directions() {
    assert_eq!(PhoneChannel::Standup.next(), PhoneChannel::Blocked);
    assert_eq!(PhoneChannel::Blocked.next(), PhoneChannel::Shipping);
    assert_eq!(PhoneChannel::Shipping.next(), PhoneChannel::Watercooler);
    assert_eq!(PhoneChannel::Watercooler.next(), PhoneChannel::Standup);
    assert_eq!(PhoneChannel::Standup.previous(), PhoneChannel::Watercooler);
    assert_eq!(PhoneChannel::Blocked.previous(), PhoneChannel::Standup);
}

#[test]
fn notebook_channels_round_trip_through_their_index() {
    for channel in [
        Channel::Attention,
        Channel::Deliveries,
        Channel::Changes,
        Channel::Team,
    ] {
        assert_eq!(Channel::at(channel.index()), channel);
    }
    assert_eq!(Channel::Changes.label(), "Since your visit");
    assert_eq!(Channel::default_channel(), Channel::Attention);
    assert_eq!(WorkTab::all()[2].label(), "Team");
    assert_eq!(WorkTab::default_tab(), WorkTab::Now);
    assert_eq!(color_depth_label(ColorDepth::Palette256), "256");
}
