use futures::FutureExt;
use websocket_control::utils::Vec2d;

#[test]
fn special_chars() {
    for d in 0..127 {
        let c = char::from_u32(d).unwrap();
        let str = c.escape_default();
        println!("{} {} {}", d, c, str);
    }
}

#[test]
fn test_display() {
    let mut v = Vec2d::new_filled_copy(2, 3, 0);
    v.set(0, 1, 2);
    for y in 0..v.y() {
        let mut line = String::new();
        for x in 0..v.x() {
            line += &format!("{:?}\t", v.get(x, y));
        }
        println!("{}", line);
    }
    assert_eq!(*v.get(0, 1), 2);
}

#[test]
fn a() {
    let mut v = Vec2d::new_filled_copy(2, 3, 0);
    v.set(0, 1, 2);
    v.set(1, 2, 20);
    v.set(1, 1, 11);
    println!("{:?}", &v.row(0)[0..3]);
    println!("{:?}", &v.row(1)[0..1]);
    println!("{:?}", v);
    for i in v.iter() {
        println!("{:?}", i);
    }
    assert_eq!(v.row(0), &[0, 2, 0]);
    assert_eq!(v.row(1), &[0, 11, 20]);
}

#[test]
fn t() {
    let a = async { 2 };
    let _ = a.then(|v| async move { Result::<_, ()>::Ok(v) });
}
