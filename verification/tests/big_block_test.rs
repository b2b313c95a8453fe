use movefmt::big_block::{add_blank_row_in_two_blocks, nth_line_range};

/// Where the block that begins with `marker` starts and ends: from the marker to just after
/// the brace that closes the first brace after it.
fn block(input: &str, marker: &str) -> (u32, u32) {
    let start = input.find(marker).unwrap();
    let b = input.as_bytes();
    let mut i = start + input[start..].find('{').unwrap();
    let mut depth = 0;
    loop {
        if b[i] == b'{' {
            depth += 1;
        } else if b[i] == b'}' {
            depth -= 1;
            if depth == 0 {
                return (start as u32, (i + 1) as u32);
            }
        }
        i += 1;
    }
}

fn blocks(input: &str, markers: &[&str]) -> Vec<(u32, u32)> {
    markers.iter().map(|m| block(input, m)).collect()
}

#[test]
fn test_add_blank_row_in_two_blocks_1() {
    let mut input = "
    module std::ascii {
        struct Char {
            byte: u8,
        }
        spec Char {
            // comment
            invariant is_valid_char(byte); //comment
        }
    }    
    "
    .to_string();
    let expected = input.replacen("        spec Char", "\n        spec Char", 1);
    let locs = blocks(&input, &["struct Char", "spec Char"]);
    add_blank_row_in_two_blocks(&mut input, &locs);
    assert_eq!(input, expected);
}

#[test]
fn test_add_blank_row_in_two_blocks_2() {
    let mut input = "
module Test {
    struct SomeOtherStruct1 has drop {
        some_other_field1: u64,
    }

    struct SomeOtherStruct2 has drop {
        some_other_field2: SomeOtherStruct1,
    }

    struct SomeOtherStruct3 has drop {
        some_other_field3: SomeOtherStruct2,
    } //comment
    struct SomeOtherStruct4 has drop {
        some_other_field4: SomeOtherStruct3,
    }

    struct SomeOtherStruct5 has drop {
        some_other_field5: SomeOtherStruct4,
    }

    struct SomeOtherStruct6 has drop {
        some_other_field6: SomeOtherStruct5,
    }
    struct SomeStruct has key, drop, store {
        some_field: SomeOtherStruct6,
    }

    fun acq(addr: address): u64
        acquires SomeStruct {
        let val = borrow_global<SomeStruct>(addr);

        val.some_field.some_other_field6.some_other_field5.some_other_field4.some_other_field3.
        some_other_field2.some_other_field1
    }
}
"
    .to_string();
    let expected = input
        .replacen("    struct SomeOtherStruct4", "\n    struct SomeOtherStruct4", 1)
        .replacen("    struct SomeStruct has", "\n    struct SomeStruct has", 1);
    let locs = blocks(
        &input,
        &[
            "struct SomeOtherStruct1",
            "struct SomeOtherStruct2",
            "struct SomeOtherStruct3",
            "struct SomeOtherStruct4",
            "struct SomeOtherStruct5",
            "struct SomeOtherStruct6",
            "struct SomeStruct has",
            "fun acq",
        ],
    );
    add_blank_row_in_two_blocks(&mut input, &locs);
    assert_eq!(input, expected);
}

#[test]
fn test_add_blank_row_in_two_blocks_3() {
    let mut input = "
module test_module1 {

    struct TestStruct1 {
        // This is field1 comment
        field1: u64,
        field2: bool,
    }
}

module test_module2 {

    struct TestStruct2 { // This is a comment before struct definition
        field1: u64, // This is a comment for field1
        field2: bool, // This is a comment for field2
    } // This is a comment after struct definition
}

module test_module4 {

    struct TestStruct4<T>{
        // This is a comment before complex field
        field: vector<T>, // This is a comment after complex field
    }
}
"
    .to_string();
    let expected = input.clone();
    let locs = blocks(&input, &["struct TestStruct1", "struct TestStruct2", "struct TestStruct4"]);
    add_blank_row_in_two_blocks(&mut input, &locs);
    // a closing brace alone on the line between blocks is no content
    assert_eq!(input, expected);
}

#[test]
fn test_add_blank_row_in_two_blocks_4() {
    let mut input = "
spec std::string {
    spec internal_check_utf8(v: &vector<u8>): bool {
        pragma opaque;
        aborts_if [abstract] false;
        ensures [abstract] result == spec_internal_check_utf8(v);
    }
    spec internal_is_char_boundary(v: &vector<u8>, i: u64): bool {
        pragma opaque;
        aborts_if[abstract] false;
        ensures[abstract] result == spec_internal_is_char_boundary(v, i);
    }
}
    
"
    .to_string();
    let expected = input.replacen("    spec internal_is_char", "\n    spec internal_is_char", 1);
    let locs = blocks(&input, &["spec internal_check_utf8", "spec internal_is_char_boundary"]);
    add_blank_row_in_two_blocks(&mut input, &locs);
    assert_eq!(input, expected);
}

#[test]
fn test_add_blank_row_in_two_blocks_5() {
    let mut input = "
address 0x1 {
    module M {
        #[test]
        #[expected_failure(vector_error, minor_status = 1, location = Self)]
        fun borrow_out_of_range() {}
        #[test]
        #[expected_failure(abort_code = 26113, location = extensions::table)]
        fun test_destroy_fails() {}
    }
}
    "
    .to_string();
    let expected = input.replacen("{}\n        #[test]", "{}\n\n        #[test]", 1);
    let locs = blocks(&input, &["fun borrow_out_of_range", "fun test_destroy_fails"]);
    add_blank_row_in_two_blocks(&mut input, &locs);
    assert_eq!(input, expected);
}

#[test]
fn one_block_changes_nothing() {
    let mut input = "struct A {}\nstruct B {}".to_string();
    add_blank_row_in_two_blocks(&mut input, &[(0, 11)]);
    assert_eq!(input, "struct A {}\nstruct B {}");
    add_blank_row_in_two_blocks(&mut input, &[(0, 11), (12, 23)]);
    assert_eq!(input, "struct A {}\n\nstruct B {}");
}

#[test]
fn line_ranges() {
    let s = b"ab\ncd";
    let lines = [0usize, 3];
    assert_eq!(nth_line_range(s, 0, &lines), Some((0, 2)));
    assert_eq!(nth_line_range(s, 1, &lines), Some((3, 5)));
    assert_eq!(nth_line_range(s, 2, &lines), None);
}
