use ndarray::{Array2, Axis, Slice, Zip};
use physarum::field::{Config, Field};

fn numbered(width: i64, height: i64) -> Field<f64> {
    let config = Config::new(width, height, 0).unwrap();
    let mut field = Field::new(&config, 0.0);
    for x in 0..field.width() {
        for y in 0..field.height() {
            field.set(x, y, (10 * x + y) as f64);
        }
    }
    field
}

fn rows_of(field: &Field<f64>) -> Vec<Vec<f64>> {
    (0..field.width()).map(|x| (0..field.height()).map(|y| field.at(x, y)).collect()).collect()
}

fn as_array(field: &Field<f64>) -> Array2<f64> {
    Array2::from_shape_fn((field.width(), field.height()), |(x, y)| field.at(x, y))
}

fn block(a: &Array2<f64>, rows: Slice, cols: Slice) -> Array2<f64> {
    a.slice_axis(Axis(0), rows).slice_axis(Axis(1), cols).to_owned()
}

fn put(b: &mut Array2<f64>, rows: Slice, cols: Slice, from: &Array2<f64>) {
    b.slice_axis_mut(Axis(0), rows).slice_axis_mut(Axis(1), cols).assign(from);
}

fn from(start: isize) -> Slice {
    Slice::new(start, None, 1)
}

fn upto(end: isize) -> Slice {
    Slice::new(0, Some(end), 1)
}

fn all() -> Slice {
    Slice::new(0, None, 1)
}

/// A cyclic shift written with array slices: the grid is cut in two along
/// each shifted axis and the parts change places.
fn roll_by_slices(a: &Array2<f64>, x: isize, y: isize) -> Array2<f64> {
    let mut b = Array2::from_elem(a.dim(), 0.0);
    if x == 0 {
        if y == 0 {
            b.assign(a);
        } else {
            put(&mut b, all(), from(y), &block(a, all(), upto(-y)));
            put(&mut b, all(), upto(y), &block(a, all(), from(-y)));
        }
    } else if y == 0 {
        put(&mut b, from(x), all(), &block(a, upto(-x), all()));
        put(&mut b, upto(x), all(), &block(a, from(-x), all()));
    } else {
        put(&mut b, from(x), from(y), &block(a, upto(-x), upto(-y)));
        put(&mut b, upto(x), from(y), &block(a, from(-x), upto(-y)));
        put(&mut b, from(x), upto(y), &block(a, upto(-x), from(-y)));
        put(&mut b, upto(x), upto(y), &block(a, from(-x), from(-y)));
    }
    b
}

fn laplacian_by_slices(x: &Array2<f64>, dx: f64) -> Array2<f64> {
    let mut r = Array2::zeros(x.dim());
    let ux_r = roll_by_slices(x, 1, 0);
    let ux_l = roll_by_slices(x, -1, 0);
    let uy_r = roll_by_slices(x, 0, 1);
    let uy_l = roll_by_slices(x, 0, -1);
    Zip::from(&mut r).and(x).and(&ux_r).and(&uy_r).and(&ux_l).and(&uy_l).for_each(
        |r, &x, &xx, &xy, &xxl, &xyl| {
            *r = (xx + xy + xxl + xyl - 4.0 * x) / dx / dx;
        },
    );
    r
}

fn five_point(c: f64, xb: f64, yb: f64, xa: f64, ya: f64) -> f64 {
    (xb + yb + xa + ya - 4.0 * c) / 2.0 / 2.0
}

#[test]
fn roll_by_nothing_is_the_field_itself() {
    let field = numbered(3, 4);
    assert_eq!(rows_of(&field.roll(0, 0, 0.0)), rows_of(&field));
}

#[test]
fn roll_by_one_column_moves_the_last_column_to_the_front() {
    let field = numbered(3, 2);
    let rolled = field.roll(1, 0, 0.0);
    assert_eq!(rows_of(&rolled), vec![vec![20.0, 21.0], vec![0.0, 1.0], vec![10.0, 11.0]]);
}

#[test]
fn roll_back_by_one_column_moves_the_first_column_to_the_end() {
    let field = numbered(3, 2);
    let rolled = field.roll(-1, 0, 0.0);
    assert_eq!(rows_of(&rolled), vec![vec![10.0, 11.0], vec![20.0, 21.0], vec![0.0, 1.0]]);
}

#[test]
fn roll_by_one_row_moves_the_last_row_to_the_front() {
    let field = numbered(2, 3);
    let rolled = field.roll(0, 1, 0.0);
    assert_eq!(rows_of(&rolled), vec![vec![2.0, 0.0, 1.0], vec![12.0, 10.0, 11.0]]);
}

#[test]
fn roll_back_by_one_row_moves_the_first_row_to_the_end() {
    let field = numbered(2, 3);
    let rolled = field.roll(0, -1, 0.0);
    assert_eq!(rows_of(&rolled), vec![vec![1.0, 2.0, 0.0], vec![11.0, 12.0, 10.0]]);
}

#[test]
fn roll_along_both_axes_at_once() {
    let field = numbered(3, 3);
    let rolled = field.roll(1, -1, 0.0);
    assert_eq!(
        rows_of(&rolled),
        vec![vec![21.0, 22.0, 20.0], vec![1.0, 2.0, 0.0], vec![11.0, 12.0, 10.0]]
    );
}

#[test]
fn roll_leaves_nothing_of_the_filler() {
    let field = numbered(4, 5);
    let rolled = field.roll(2, 3, -1.0);
    for x in 0..4 {
        for y in 0..5 {
            assert!(rolled.at(x, y) >= 0.0);
        }
    }
}

#[test]
fn roll_by_whole_periods_is_the_field_itself() {
    let field = numbered(3, 4);
    assert_eq!(rows_of(&field.roll(3, 0, 0.0)), rows_of(&field));
    assert_eq!(rows_of(&field.roll(0, -4, 0.0)), rows_of(&field));
    assert_eq!(rows_of(&field.roll(-300, 400, 0.0)), rows_of(&field));
}

#[test]
fn roll_by_more_than_a_period_counts_the_remainder() {
    let field = numbered(3, 4);
    assert_eq!(rows_of(&field.roll(7, -9, 0.0)), rows_of(&field.roll(1, 3, 0.0)));
    assert_eq!(rows_of(&field.roll(i64::MIN, i64::MAX, 0.0)), rows_of(&field.roll(1, 3, 0.0)));
}

#[test]
fn roll_there_and_back_is_the_field_itself() {
    let field = numbered(5, 4);
    let back = field.roll(2, -3, 0.0).roll(-2, 3, 0.0);
    assert_eq!(rows_of(&back), rows_of(&field));
}

#[test]
fn roll_of_a_single_cell_is_that_cell() {
    let field = numbered(1, 1);
    assert_eq!(rows_of(&field.roll(5, -7, 1.0)), vec![vec![0.0]]);
}

#[test]
fn roll_agrees_with_slicing() {
    let field = numbered(5, 4);
    let array = as_array(&field);
    let shifts: Vec<(i64, i64)> = vec![
        (0, 0),
        (1, 0),
        (-1, 0),
        (0, 1),
        (0, -1),
        (1, 1),
        (-1, -1),
        (2, -3),
        (-4, 3),
        (4, 0),
        (0, -3),
    ];
    for (dx, dy) in shifts {
        let rolled = field.roll(dx, dy, 0.0);
        assert_eq!(as_array(&rolled), roll_by_slices(&array, dx as isize, dy as isize));
    }
}

#[test]
fn laplacian_of_a_flat_field_is_zero() {
    let config = Config::new(6, 5, 0).unwrap();
    let field = Field::new(&config, 3.25f64);
    let lap = field.laplacian(&five_point);
    for x in 0..6 {
        for y in 0..5 {
            assert_eq!(lap.at(x, y), 0.0);
        }
    }
}

#[test]
fn laplacian_of_one_peak() {
    let config = Config::new(5, 5, 0).unwrap();
    let mut field = Field::new(&config, 0.0f64);
    field.set(2, 2, 1.0);
    let lap = field.laplacian(&five_point);
    for x in 0..5 {
        for y in 0..5 {
            let want = match (x, y) {
                (2, 2) => -1.0,
                (1, 2) | (3, 2) | (2, 1) | (2, 3) => 0.25,
                _ => 0.0,
            };
            assert_eq!(lap.at(x, y), want);
        }
    }
}

#[test]
fn laplacian_wraps_at_the_edges() {
    let config = Config::new(4, 3, 0).unwrap();
    let mut field = Field::new(&config, 0.0f64);
    field.set(0, 0, 1.0);
    let lap = field.laplacian(&five_point);
    assert_eq!(lap.at(0, 0), -1.0);
    assert_eq!(lap.at(1, 0), 0.25);
    assert_eq!(lap.at(3, 0), 0.25);
    assert_eq!(lap.at(0, 1), 0.25);
    assert_eq!(lap.at(0, 2), 0.25);
    assert_eq!(lap.at(2, 0), 0.0);
    assert_eq!(lap.at(1, 1), 0.0);
    assert_eq!(lap.at(3, 2), 0.0);
}

#[test]
fn laplacian_hands_the_neighbours_over_in_order() {
    let field = numbered(4, 4);
    let which = |pick: usize| {
        move |c: f64, xb: f64, yb: f64, xa: f64, ya: f64| [c, xb, yb, xa, ya][pick]
    };
    assert_eq!(field.laplacian(&which(0)).at(1, 2), 12.0);
    assert_eq!(field.laplacian(&which(1)).at(1, 2), 2.0);
    assert_eq!(field.laplacian(&which(2)).at(1, 2), 11.0);
    assert_eq!(field.laplacian(&which(3)).at(1, 2), 22.0);
    assert_eq!(field.laplacian(&which(4)).at(1, 2), 13.0);
    assert_eq!(field.laplacian(&which(1)).at(0, 0), 30.0);
    assert_eq!(field.laplacian(&which(2)).at(0, 0), 3.0);
    assert_eq!(field.laplacian(&which(3)).at(3, 3), 3.0);
    assert_eq!(field.laplacian(&which(4)).at(3, 3), 30.0);
}

#[test]
fn laplacian_agrees_with_slicing() {
    let config = Config::new(7, 6, 0).unwrap();
    let mut field = Field::new(&config, 0.0f64);
    let mut seed: u64 = 12345;
    for x in 0..7 {
        for y in 0..6 {
            seed = seed.wrapping_mul(6364136223846793005).wrapping_add(1442695040888963407);
            field.set(x, y, (seed >> 11) as f64 / (1u64 << 53) as f64);
        }
    }
    let lap = field.laplacian(&five_point);
    assert_eq!(as_array(&lap), laplacian_by_slices(&as_array(&field), 2.0));
}

#[test]
fn laplacian_sums_to_zero() {
    let config = Config::new(16, 9, 0).unwrap();
    let mut field = Field::new(&config, 0.0f64);
    let mut seed: u64 = 99;
    for x in 0..16 {
        for y in 0..9 {
            seed = seed.wrapping_mul(6364136223846793005).wrapping_add(1442695040888963407);
            field.set(x, y, (seed >> 11) as f64 / (1u64 << 53) as f64);
        }
    }
    let lap = field.laplacian(&five_point);
    let mut sum = 0.0;
    for x in 0..16 {
        for y in 0..9 {
            sum += lap.at(x, y);
        }
    }
    assert!(sum.abs() < 1e-12);
}

#[test]
fn laplacian_sums_to_exactly_zero_on_integers() {
    let config = Config::new(5, 7, 0).unwrap();
    let mut field = Field::new(&config, 0i64);
    for x in 0..5 {
        for y in 0..7 {
            field.set(x, y, ((x * 31 + y * 17) % 23) as i64 - 11);
        }
    }
    let lap = field.laplacian(&|c: i64, xb: i64, yb: i64, xa: i64, ya: i64| {
        xb + yb + xa + ya - 4 * c
    });
    let mut sum = 0;
    for x in 0..5 {
        for y in 0..7 {
            sum += lap.at(x, y);
        }
    }
    assert_eq!(sum, 0);
}

#[test]
fn diffuse_mixes_the_stencil_into_the_field() {
    let config = Config::new(5, 5, 0).unwrap();
    let mut field = Field::new(&config, 0.0f64);
    field.set(2, 2, 0.3);
    field.diffuse(&five_point, &|v: f64, l: f64| v + l * 0.1);
    for x in 0..5 {
        for y in 0..5 {
            let want = match (x, y) {
                (2, 2) => 0.3 + ((0.0 - 4.0 * 0.3) / 2.0 / 2.0) * 0.1,
                (1, 2) | (3, 2) | (2, 1) | (2, 3) => 0.0 + (0.3 / 2.0 / 2.0) * 0.1,
                _ => 0.0,
            };
            assert_eq!(field.at(x, y), want);
        }
    }
}
