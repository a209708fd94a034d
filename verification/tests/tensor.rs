use dataset::data::SpiralBatcher;
use dataset::loss::KLLoss;
use dataset::point::{SpiralItem, ToPoints, ToVec};
use dataset::tensor::{Device, TensorData};

#[test]
fn to_vec_cuts_along_the_last_axis() {
    let t = TensorData { dims: vec![2, 1, 3], values: vec![1, 2, 3, 4, 5, 6] };
    assert_eq!(t.to_vec(), vec![vec![1, 2, 3], vec![4, 5, 6]]);
    let flat = TensorData { dims: vec![4], values: vec![9, 8, 7, 6] };
    assert_eq!(flat.to_vec(), vec![vec![9, 8, 7, 6]]);
    let columns = TensorData { dims: vec![3, 1], values: vec![1, 2, 3] };
    assert_eq!(columns.to_vec(), vec![vec![1], vec![2], vec![3]]);
}

#[test]
fn to_vec_of_nothing_is_nothing() {
    let t = TensorData { dims: vec![0, 1, 3], values: Vec::new() };
    assert_eq!(t.to_vec(), Vec::<Vec<u32>>::new());
}

#[test]
fn to_vec_keeps_a_shorter_rest() {
    let t = TensorData { dims: vec![2, 3], values: vec![1, 2, 3, 4, 5] };
    assert_eq!(t.to_vec(), vec![vec![1, 2, 3], vec![4, 5]]);
}

#[test]
fn to_points_takes_three_coordinates_of_each_row() {
    let exact = TensorData { dims: vec![2, 1, 3], values: vec![1, 2, 3, 4, 5, 6] };
    assert_eq!(exact.to_points(), vec![vec![1, 2, 3], vec![4, 5, 6]]);
    let wider = TensorData { dims: vec![2, 4], values: vec![1, 2, 3, 99, 4, 5, 6, 98] };
    assert_eq!(wider.to_points(), vec![vec![1, 2, 3], vec![4, 5, 6]]);
}

#[test]
fn rows_of_a_batch_are_the_points_of_its_items() {
    let items: Vec<SpiralItem> = (0u32..5)
        .map(|i| SpiralItem::new(vec![i, i + 100, i + 200], Some(i + 300)))
        .collect();
    let batch = SpiralBatcher::new(Device::Cpu).batch(items.clone()).unwrap();
    let points: Vec<Vec<u32>> = items.iter().map(|it| it.point.clone()).collect();
    let labels: Vec<Vec<u32>> = items.iter().map(|it| vec![it.label.unwrap()]).collect();
    assert_eq!(batch.points.clone().to_vec(), points);
    assert_eq!(batch.points.to_points(), points);
    assert_eq!(batch.labels.to_vec(), labels);
}

#[test]
fn kl_loss_is_a_unit() {
    let a = KLLoss::new();
    let b = KLLoss::default();
    assert_eq!(format!("{:?}", a), format!("{:?}", b));
}
