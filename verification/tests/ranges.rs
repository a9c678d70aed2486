use dbg_ranges::DebugAdjacent;
use dbg_ranges::DebugAdjacentBy;

#[test]
fn test_dump_ranges() {
    let input: &[u32] = &[];
    let dump = DebugAdjacent::new(input);
    let actual_output = dump.render();
    println!("dump_ranges: {:?} --> {:?}", input, actual_output);
    assert_eq!(actual_output.as_str(), "", "input: {:?}", input);

    let input: &[u32] = &[10];
    let dump = DebugAdjacent::new(input);
    let actual_output = dump.render();
    println!("dump_ranges: {:?} --> {:?}", input, actual_output);
    assert_eq!(actual_output.as_str(), "10", "input: {:?}", input);

    let input: &[u32] = &[10, 20];
    let dump = DebugAdjacent::new(input);
    let actual_output = dump.render();
    println!("dump_ranges: {:?} --> {:?}", input, actual_output);
    assert_eq!(actual_output.as_str(), "10, 20", "input: {:?}", input);

    let input: &[u32] = &[10, 11, 20];
    let dump = DebugAdjacent::new(input);
    let actual_output = dump.render();
    println!("dump_ranges: {:?} --> {:?}", input, actual_output);
    assert_eq!(actual_output.as_str(), "10-11, 20", "input: {:?}", input);

    let input: &[u32] = &[10, 12, 13, 14, 15, 20];
    let dump = DebugAdjacent::new(input);
    let actual_output = dump.render();
    println!("dump_ranges: {:?} --> {:?}", input, actual_output);
    assert_eq!(actual_output.as_str(), "10, 12-15, 20", "input: {:?}", input);

    let input: &[u32] = &[u32::MAX, 42];
    let dump = DebugAdjacent::new(input);
    let actual_output = dump.render();
    println!("dump_ranges: {:?} --> {:?}", input, actual_output);
    assert_eq!(actual_output.as_str(), "4294967295, 42", "input: {:?}", input);

    let input: &[i32] = &[i32::MIN, i32::MIN + 1, 42];
    let dump = DebugAdjacent::new(input);
    let actual_output = dump.render();
    println!("dump_ranges: {:?} --> {:?}", input, actual_output);
    assert_eq!(
        actual_output.as_str(),
        "-2147483648--2147483647, 42",
        "input: {:?}",
        input
    );
}

#[test]
fn test_dump_ranges_by() {
    let input: &[u32] = &[];
    let dump = DebugAdjacentBy::new(input, |&a, &b| a + 1 == b);
    let actual_output = dump.render();
    println!("dump_ranges: {:?} --> {:?}", input, actual_output);
    assert_eq!(actual_output.as_str(), "", "input: {:?}", input);

    let input: &[u32] = &[10];
    let dump = DebugAdjacentBy::new(input, |&a, &b| a + 1 == b);
    let actual_output = dump.render();
    println!("dump_ranges: {:?} --> {:?}", input, actual_output);
    assert_eq!(actual_output.as_str(), "10", "input: {:?}", input);

    let input: &[u32] = &[10, 20];
    let dump = DebugAdjacentBy::new(input, |&a, &b| a + 1 == b);
    let actual_output = dump.render();
    println!("dump_ranges: {:?} --> {:?}", input, actual_output);
    assert_eq!(actual_output.as_str(), "10, 20", "input: {:?}", input);

    let input: &[u32] = &[10, 11, 20];
    let dump = DebugAdjacentBy::new(input, |&a, &b| a + 1 == b);
    let actual_output = dump.render();
    println!("dump_ranges: {:?} --> {:?}", input, actual_output);
    assert_eq!(actual_output.as_str(), "10-11, 20", "input: {:?}", input);

    let input: &[u32] = &[10, 12, 13, 14, 15, 20];
    let dump = DebugAdjacentBy::new(input, |&a, &b| a + 1 == b);
    let actual_output = dump.render();
    println!("dump_ranges: {:?} --> {:?}", input, actual_output);
    assert_eq!(actual_output.as_str(), "10, 12-15, 20", "input: {:?}", input);
}

#[test]
fn test_dump_ranges_by_swapped() {
    let input: &[u32] = &[];
    let dump = DebugAdjacentBy::new(input, |&a, &b| a + 1 == b);
    let actual_output = dump.render();
    println!("dump_ranges: {:?} --> {:?}", input, actual_output);
    assert_eq!(actual_output.as_str(), "", "input: {:?}", input);

    let input: &[u32] = &[10];
    let dump = DebugAdjacentBy::new(input, |&a, &b| a + 1 == b);
    let actual_output = dump.render();
    println!("dump_ranges: {:?} --> {:?}", input, actual_output);
    assert_eq!(actual_output.as_str(), "10", "input: {:?}", input);

    let input: &[u32] = &[10, 20];
    let dump = DebugAdjacentBy::new(input, |&a, &b| a + 1 == b);
    let actual_output = dump.render();
    println!("dump_ranges: {:?} --> {:?}", input, actual_output);
    assert_eq!(actual_output.as_str(), "10, 20", "input: {:?}", input);

    let input: &[u32] = &[10, 11, 20];
    let dump = DebugAdjacentBy::new(input, |&a, &b| a + 1 == b);
    let actual_output = dump.render();
    println!("dump_ranges: {:?} --> {:?}", input, actual_output);
    assert_eq!(actual_output.as_str(), "10-11, 20", "input: {:?}", input);

    let input: &[u32] = &[10, 12, 13, 14, 15, 20];
    let dump = DebugAdjacentBy::new(input, |&a, &b| a + 1 == b);
    let actual_output = dump.render();
    println!("dump_ranges: {:?} --> {:?}", input, actual_output);
    assert_eq!(actual_output.as_str(), "10, 12-15, 20", "input: {:?}", input);
}
