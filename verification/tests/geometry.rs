//! Vector algebra in fixed point: one unit is 65536.

use engine::vec3::Vec3;

const S: i128 = 65536;

fn v(x: i128, y: i128, z: i128) -> Vec3 {
    Vec3 { x, y, z }
}

#[test]
fn test_ones() {
    let start = Vec3::ones();
    assert!(start.x == S && start.y == S && start.z == S);
}

#[test]
fn test_scale() {
    // 1.36 in fixed point.
    let s136: i128 = 89129;
    {
        let start = Vec3::ones();
        let start_scaled = start.scaled(s136);
        assert!(start_scaled.x == s136 && start_scaled.y == s136 && start_scaled.z == s136);
    }
    {
        let mut start_scale = Vec3::ones();
        start_scale.scale(s136);
        assert!(start_scale.x == s136 && start_scale.y == s136 && start_scale.z == s136);
    }
}

#[test]
fn test_dot() {
    {
        let a = v(0, S, 0);
        let b = v(S, 0, 0);
        assert!(a.dot(b) == 0);
    }
    {
        let a = v(0, S, 0);
        let b = v(0, S, 0);
        assert!(a.dot(b) == S);
    }
    {
        let a = v(0, S, 0);
        let b = v(0, -S, 0);
        assert!(a.dot(b) == -S);
    }
    {
        let a = v(S, S, 0);
        let b = v(S, -S, 0);
        assert!(a.dot(b) == 0);
    }
}

#[test]
fn test_norm() {
    {
        let a = v(42 * S, S, 0);
        assert_eq!(a.squared_norm(), (42 * 42 + 1) * S);
    }
    {
        let a = v(42 * S, S, 0);
        let n2 = a.normalized().squared_norm();
        // Unit within fixed-point rounding.
        assert!((n2 - S).abs() <= 64);
    }
    {
        let mut a = v(42 * S, S, 0);
        a.normalize_l0();
        assert!(a.x == S);
    }
}

#[test]
fn test_cross() {
    {
        let a = v(42 * S, S, 0);
        assert!(a.cross(a).squared_norm() == 0);
    }
    {
        let a = v(42 * S, S, 0);
        assert_eq!(a.cross(a.neg()).squared_norm(), 0);
    }
    {
        let a = v(S, S, 0);
        let b = v(S, -S, 0);
        assert_eq!(a.cross(b).dot(a), 0);
    }
    {
        let a = v(S, S, 0);
        let b = v(S, -S, 0);
        assert_eq!(
            a.cross(b).squared_norm(),
            engine::fixed::mul_exec(a.squared_norm(), b.squared_norm())
        );
    }
    {
        // |a x b|^2 against |a|^2 |b|^2 sin^2, with a quarter-turn angle.
        let a = v(S, S, 0);
        let b = v(S, 0, 0);
        let half = S / 2;
        let expected = engine::fixed::mul_exec(
            engine::fixed::mul_exec(a.squared_norm(), b.squared_norm()),
            half,
        );
        assert!((a.cross(b).squared_norm() - expected).abs() < 66);
    }
}

#[test]
fn test_squared_norm() {
    let a = v(S, -2 * S, 3 * S);
    assert_eq!(a.squared_norm(), 14 * S);
}

#[test]
fn test_add() {
    let a = v(S, -2 * S, 3 * S);
    let b = v(4 * S, -2 * S, 2 * S);
    assert_eq!(a.plus(b), v(5 * S, -4 * S, 5 * S));
    assert_eq!(a.minus(a), Vec3::zero());
}

#[test]
fn normalize_zero_stays_zero() {
    let z = Vec3::zero();
    assert_eq!(z.normalized(), Vec3::zero());
}

#[test]
fn min_max_components() {
    let a = v(3 * S, -S, 2 * S);
    assert_eq!(a.max(), 3 * S);
    // The lesser of the third component and the greater of the first two.
    assert_eq!(a.min(), 2 * S);
    assert_eq!(a.abs(), v(3 * S, S, 2 * S));
}
