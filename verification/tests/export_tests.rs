use opinion_sim::export::{average_interaction_count, OpinionPlot};
use opinion_sim::util::map_value_to_color;

#[test]
fn average_merges_by_opinion_count() {
    let one = OpinionPlot { points: vec![(2, 10), (3, 20)], j: 3 };
    let two = OpinionPlot { points: vec![(2, 20)], j: 3 };
    let averaged = OpinionPlot::average(&vec![one, two]);
    let mut points = averaged.points.clone();
    points.sort();
    assert_eq!(points, vec![(2, 15), (3, 10)]);
    assert_eq!(averaged.j, 3);
}

#[test]
fn average_of_empty_batch_is_empty() {
    let averaged = OpinionPlot::average(&Vec::new());
    assert!(averaged.points.is_empty());
    assert_eq!(averaged.j, 0);
}

#[test]
fn average_rounds_down() {
    let one = OpinionPlot { points: vec![(2, 3)], j: 5 };
    let two = OpinionPlot { points: vec![(2, 4)], j: 5 };
    let averaged = OpinionPlot::average(&vec![one, two]);
    assert_eq!(averaged.points, vec![(2, 3)]);
    assert_eq!(averaged.j, 5);
}

#[test]
fn mean_interaction_count_rounds_down() {
    assert_eq!(average_interaction_count(&vec![3, 4]), Some(3));
    assert_eq!(average_interaction_count(&vec![10, 20, 33]), Some(21));
    assert_eq!(average_interaction_count(&Vec::new()), None);
    assert_eq!(average_interaction_count(&vec![u64::MAX, 1]), None);
}

#[test]
fn default_plot_is_empty() {
    let plot = OpinionPlot::default();
    assert!(plot.points.is_empty());
    assert_eq!(plot.j, 0);
}

#[test]
fn color_mapping_is_exact() {
    // Range width 100 gives a category width of 4; the value 50 falls in
    // category 12, whose red share is 12 * 255 / 25 = 122.
    assert_eq!(map_value_to_color(50, 0, 100), (122, 133, 0));
    assert_eq!(map_value_to_color(0, 0, 100), (0, 255, 0));
    assert_eq!(map_value_to_color(100, 0, 100), (255, 0, 0));
}
