use brainfuck::{is_balanced, Action, ByteCodeInterpreter, ByteCodeObject, TAPE_LEN};

fn chars(s: &str) -> Vec<char> {
    s.chars().collect()
}

fn unoptimized(s: &str) -> ByteCodeObject {
    ByteCodeObject::unoptimized_new(&chars(s))
}

fn optimized(s: &str) -> ByteCodeObject {
    ByteCodeObject::new(&chars(s))
}

fn shape(code: &ByteCodeObject) -> String {
    format!("{:?}", code)
}

/// Drives the interpreter to its end as a program's user would, feeding the
/// bytes of `input` (then 0) to its reads.
fn run(code: &ByteCodeObject, input: &[u8]) -> (Vec<u8>, Action, ByteCodeInterpreter) {
    let mut it = ByteCodeInterpreter::new();
    let mut out = Vec::new();
    let mut next = 0;
    let mut byte = None;
    loop {
        match it.step(code, byte.take()) {
            Action::Continue => {}
            Action::Output(b) => out.push(b),
            Action::NeedInput => {
                byte = Some(if next < input.len() { input[next] } else { 0 });
                next += 1;
            }
            end => return (out, end, it),
        }
    }
}

#[test]
fn parse_ignores_comments() {
    assert_eq!(
        shape(&unoptimized("a+b-c<d>e,f.g")),
        "ByteCodeObject { instructions: [Memory(1), Memory(255), Pointer(18446744073709551615), Pointer(1), Input, Output] }"
    );
}

#[test]
fn parse_nested_loops() {
    assert_eq!(
        shape(&unoptimized("[+[-]]>")),
        "ByteCodeObject { instructions: [Loop(ByteCodeObject { instructions: [Memory(1), Loop(ByteCodeObject { instructions: [Memory(255)] })] }), Pointer(1)] }"
    );
}

#[test]
fn parse_empty_loop_and_program() {
    assert_eq!(shape(&unoptimized("[]")), "ByteCodeObject { instructions: [Loop(ByteCodeObject { instructions: [] })] }");
    assert_eq!(shape(&unoptimized("no commands")), "ByteCodeObject { instructions: [] }");
}

#[test]
fn balanced_brackets() {
    assert!(is_balanced(&chars("[[]]")));
    assert!(is_balanced(&chars("x[y]z")));
    assert!(is_balanced(&chars("")));
    assert!(!is_balanced(&chars("[[]")));
    assert!(!is_balanced(&chars("][")));
    assert!(!is_balanced(&chars("]")));
}

#[test]
fn empty_blocks_are_reported() {
    assert!(!unoptimized("").all_blocks_nonempty());
    assert!(!unoptimized("+[]").all_blocks_nonempty());
    assert!(!unoptimized("+[>[]<]").all_blocks_nonempty());
    assert!(unoptimized("+[-]").all_blocks_nonempty());
}

#[test]
fn optimize_groups_additions_and_moves() {
    assert_eq!(shape(&optimized("+++>>")), "ByteCodeObject { instructions: [Memory(3), Pointer(2)] }");
}

#[test]
fn optimize_drops_cancelled_additions() {
    assert_eq!(shape(&optimized("+-.")), "ByteCodeObject { instructions: [Output] }");
    assert_eq!(shape(&optimized("><.")), "ByteCodeObject { instructions: [Output] }");
}

#[test]
fn optimize_clears_cells() {
    assert_eq!(shape(&optimized("+[-]")), "ByteCodeObject { instructions: [Memory(1), ClearCell] }");
    assert_eq!(
        shape(&optimized("+[--]")),
        "ByteCodeObject { instructions: [Memory(1), Loop(ByteCodeObject { instructions: [Memory(254)] })] }"
    );
}

#[test]
fn optimize_makes_offset_additions() {
    assert_eq!(shape(&optimized(">+<")), "ByteCodeObject { instructions: [OffsetAdd((1, 1))] }");
}

#[test]
fn optimize_makes_spreads() {
    assert_eq!(shape(&optimized("+>+<")), "ByteCodeObject { instructions: [Spread(1, [(1, 1)])] }");
    assert_eq!(
        shape(&optimized("+[->++>+++<<]")),
        "ByteCodeObject { instructions: [Memory(1), Loop(ByteCodeObject { instructions: [Spread(255, [(1, 2), (2, 3)])] })] }"
    );
}

#[test]
fn optimize_in_place_matches_new() {
    let mut code = unoptimized("++[>+++<-]>.");
    code.optimize();
    assert_eq!(shape(&code), shape(&optimized("++[>+++<-]>.")));
}

#[test]
fn hello_output() {
    let (out, end, it) = run(&optimized("++++++++[>++++++++<-]>+.+."), &[]);
    assert_eq!(out, vec![65u8, 66u8]);
    assert_eq!(end, Action::Halted);
    assert_eq!(it.output_log(), "AB");
}

#[test]
fn optimized_and_plain_programs_agree() {
    let programs = [
        "++++++++[>++++++++<-]>+.",
        "+++[>+++[>++<-]<-]>>.",
        ",[.,]",
        "+++++[->>+<<]>>.",
        ">+<+[-]>.",
    ];
    for p in programs.iter() {
        let (a, ea, _) = run(&unoptimized(p), b"hi");
        let (b, eb, _) = run(&optimized(p), b"hi");
        assert_eq!(a, b, "{}", p);
        assert_eq!(ea, eb, "{}", p);
    }
}

#[test]
fn zero_addition_after_a_move_becomes_a_move() {
    // The removal of dead offset additions turns `OffsetAdd((1, 0))` into a
    // move, so the optimised program writes another cell than the plain one.
    assert_eq!(shape(&optimized("+>+-<.")), "ByteCodeObject { instructions: [Memory(1), Pointer(1), Output] }");
    let (a, _, _) = run(&unoptimized("+>+-<."), &[]);
    let (b, _, _) = run(&optimized("+>+-<."), &[]);
    assert_eq!(a, vec![1u8]);
    assert_eq!(b, vec![0u8]);
}

#[test]
fn input_is_read_and_zero_at_end() {
    let (out, end, _) = run(&unoptimized(",.,.,."), b"xy");
    assert_eq!(out, vec![b'x', b'y', 0u8]);
    assert_eq!(end, Action::Halted);
}

#[test]
fn input_is_waited_for() {
    let code = unoptimized(",.");
    let mut it = ByteCodeInterpreter::new();
    assert_eq!(it.step(&code, None), Action::NeedInput);
    assert_eq!(it.step(&code, None), Action::NeedInput);
    assert_eq!(it.step(&code, Some(7)), Action::Continue);
    assert_eq!(it.step(&code, None), Action::Output(7));
    assert_eq!(it.step(&code, None), Action::Halted);
    assert_eq!(it.step(&code, None), Action::Halted);
}

#[test]
fn moving_left_of_the_tape_faults() {
    let (out, end, _) = run(&unoptimized(".<+"), &[]);
    assert_eq!(out, vec![0u8]);
    assert_eq!(end, Action::OutOfBounds);
}

#[test]
fn the_tape_has_its_length() {
    let right: String = std::iter::repeat('>').take(TAPE_LEN - 1).collect();
    let (_, end, _) = run(&unoptimized(&format!("{}+.", right)), &[]);
    assert_eq!(end, Action::Halted);
    let (_, end, _) = run(&unoptimized(&format!("{}>+", right)), &[]);
    assert_eq!(end, Action::OutOfBounds);
}

#[test]
fn loops_run_until_zero() {
    let (out, _, _) = run(&unoptimized("+++[>++<-]>."), &[]);
    assert_eq!(out, vec![6u8]);
    let (out, _, _) = run(&unoptimized("[.]+."), &[]);
    assert_eq!(out, vec![1u8]);
}

#[test]
fn additions_wrap() {
    let (out, _, _) = run(&unoptimized("-."), &[]);
    assert_eq!(out, vec![255u8]);
    let plus: String = std::iter::repeat('+').take(257).collect();
    let (out, _, _) = run(&optimized(&format!("{}.", plus)), &[]);
    assert_eq!(out, vec![1u8]);
}

#[test]
fn start_runs_again_on_the_same_tape() {
    let code = unoptimized("+.");
    let mut it = ByteCodeInterpreter::new();
    while it.step(&code, None) != Action::Halted {}
    it.start();
    while it.step(&code, None) != Action::Halted {}
    assert_eq!(it.output_log(), "\u{1}\u{2}");
}

#[test]
fn clones_are_equal() {
    let code = optimized("+[->+<]>.");
    assert_eq!(shape(&code.clone()), shape(&code));
    let mut it = ByteCodeInterpreter::new();
    assert_eq!(it.step(&code, None), Action::Continue);
    let copy = it.clone();
    assert_eq!(format!("{:?}", copy), format!("{:?}", it));
}

/// Writes a parsed program back as program text, from its debug form.
fn text_of(code: &ByteCodeObject) -> String {
    let s = shape(code);
    let inner = s
        .strip_prefix("ByteCodeObject { instructions: [")
        .and_then(|r| r.strip_suffix("] }"))
        .unwrap()
        .to_string();
    inner
        .replace("Loop(ByteCodeObject { instructions: [", "[")
        .replace("] })", "]")
        .replace("Memory(1)", "+")
        .replace("Memory(255)", "-")
        .replace("Pointer(18446744073709551615)", "<")
        .replace("Pointer(1)", ">")
        .replace("Input", ",")
        .replace("Output", ".")
        .replace(", ", "")
}

#[test]
fn parse_prints_back_the_cleaned_text() {
    let programs = ["a[+b-]<>,.", "[[-]>[<+>-]]", "x", "+[->+[-]<]."];
    for p in programs.iter() {
        let cleaned: String = p.chars().filter(|c| "+-<>,.[]".contains(*c)).collect();
        assert_eq!(text_of(&unoptimized(p)), cleaned, "{}", p);
    }
}

#[test]
fn offset_addition_runs_like_move_add_move_back() {
    let p = ">+<.>.";
    assert_eq!(shape(&optimized(p)), "ByteCodeObject { instructions: [OffsetAdd((1, 1)), Output, Pointer(1), Output] }");
    let (a, ea, ia) = run(&unoptimized(p), &[]);
    let (b, eb, ib) = run(&optimized(p), &[]);
    assert_eq!(a, vec![0u8, 1u8]);
    assert_eq!(a, b);
    assert_eq!(ea, eb);
    assert_eq!(ia.output_log(), ib.output_log());
}

#[test]
fn spread_runs_like_its_additions() {
    let p = "+++>++>+<<.>.>.";
    let (a, _, _) = run(&unoptimized(p), &[]);
    let (b, _, _) = run(&optimized(p), &[]);
    assert_eq!(a, vec![3u8, 2u8, 1u8]);
    assert_eq!(a, b);
}

#[test]
fn output_log_grows_by_the_current_cell() {
    let code = optimized("+++.>++.<.");
    let mut it = ByteCodeInterpreter::new();
    let mut seen = String::new();
    loop {
        let before = it.output_log().to_string();
        match it.step(&code, None) {
            Action::Output(b) => {
                seen.push(b as char);
                assert_eq!(it.output_log(), format!("{}{}", before, b as char));
            }
            Action::Continue => assert_eq!(it.output_log(), before),
            end => {
                assert_eq!(end, Action::Halted);
                break;
            }
        }
    }
    assert_eq!(seen, "\u{3}\u{2}\u{3}");
    assert_eq!(it.output_log(), seen);
}
