use rock::chunk::Chunk;
use rock::error::{InterpretErr, RuntimeError, EXIT_COMPILE, EXIT_RUNTIME, EXIT_UNREADABLE};
use rock::opcode::OpCode;
use rock::value::negate;
use rock::vm::{BinaryOp, Status, Step, STACK_MAX, VM};

fn bits(x: f64) -> u64 {
    x.to_bits()
}

fn arith(op: BinaryOp, left: u64, right: u64) -> u64 {
    let l = f64::from_bits(left);
    let r = f64::from_bits(right);
    let v = match op {
        BinaryOp::Add => l + r,
        BinaryOp::Subtract => l - r,
        BinaryOp::Multiply => l * r,
        BinaryOp::Divide => l / r,
    };
    v.to_bits()
}

fn quiet(_step: Step) {}

fn run(chunk: Chunk) -> Result<u64, InterpretErr> {
    let mut vm = VM::new(chunk);
    vm.run(arith, quiet)
}

fn binary_program(op: OpCode, left: f64, right: f64) -> Chunk {
    let mut chunk = Chunk::new();
    chunk.write_const(bits(left), 1).unwrap();
    chunk.write_const(bits(right), 1).unwrap();
    chunk.write(op, 1);
    chunk.write(OpCode::RETURN, 1);
    chunk
}

#[test]
fn arithmetic_scenario_yields_minus_six_point_four() {
    let mut chunk = Chunk::new();
    chunk.write_const(bits(1.2), 0).unwrap();
    chunk.write_const(bits(3.2), 0).unwrap();
    chunk.write(OpCode::NEGATE, 0);
    chunk.write_const(bits(2.0), 0).unwrap();
    chunk.write(OpCode::MULTIPLY, 0);
    chunk.write(OpCode::RETURN, 0);
    let mut vm = VM::new(chunk);
    let result = vm.run(arith, quiet);
    assert_eq!(result, Ok(bits(-6.4)));
    assert_eq!(vm.status(), Status::Returned(bits(-6.4)));
    assert_eq!(vm.stack(), &vec![bits(1.2)]);
}

#[test]
fn arithmetic_scenario_step_by_step() {
    let mut chunk = Chunk::new();
    chunk.write_const(bits(1.2), 0).unwrap();
    chunk.write_const(bits(3.2), 0).unwrap();
    chunk.write(OpCode::NEGATE, 0);
    chunk.write_const(bits(2.0), 0).unwrap();
    chunk.write(OpCode::MULTIPLY, 0);
    chunk.write(OpCode::RETURN, 0);
    let mut vm = VM::new(chunk);
    assert_eq!(vm.ip(), 0);
    assert_eq!(vm.status(), Status::Running);
    assert_eq!(vm.step(), Step::Pushed(bits(1.2)));
    assert_eq!(vm.ip(), 2);
    assert_eq!(vm.step(), Step::Pushed(bits(3.2)));
    assert_eq!(vm.ip(), 4);
    assert_eq!(vm.step(), Step::Negated(bits(-3.2)));
    assert_eq!(vm.stack(), &vec![bits(1.2), bits(-3.2)]);
    assert_eq!(vm.ip(), 5);
    assert_eq!(vm.step(), Step::Pushed(bits(2.0)));
    assert_eq!(vm.ip(), 7);
    let waiting = Step::Arithmetic {
        op: BinaryOp::Multiply,
        left: bits(-3.2),
        right: bits(2.0),
    };
    assert_eq!(vm.step(), waiting);
    assert_eq!(vm.step(), waiting);
    assert_eq!(vm.ip(), 7);
    assert_eq!(vm.stack().len(), 3);
    assert!(vm.apply(bits(-6.4)));
    assert_eq!(vm.ip(), 8);
    assert_eq!(vm.stack(), &vec![bits(1.2), bits(-6.4)]);
    assert!(!vm.apply(bits(0.0)));
    assert_eq!(vm.stack(), &vec![bits(1.2), bits(-6.4)]);
    assert_eq!(vm.step(), Step::Returned(bits(-6.4)));
    assert_eq!(vm.ip(), 9);
    assert_eq!(vm.stack(), &vec![bits(1.2)]);
    assert_eq!(vm.step(), Step::Returned(bits(-6.4)));
    assert!(!vm.apply(bits(0.0)));
    assert_eq!(vm.status(), Status::Returned(bits(-6.4)));
}

#[test]
fn operands_are_left_then_right() {
    assert_eq!(run(binary_program(OpCode::ADD, 1.5, 2.25)), Ok(bits(3.75)));
    assert_eq!(run(binary_program(OpCode::SUBTRACT, 1.5, 2.25)), Ok(bits(-0.75)));
    assert_eq!(run(binary_program(OpCode::MULTIPLY, 1.5, 2.0)), Ok(bits(3.0)));
    assert_eq!(run(binary_program(OpCode::DIVIDE, 1.0, 4.0)), Ok(bits(0.25)));
}

#[test]
fn division_by_zero_is_no_fault() {
    assert_eq!(
        run(binary_program(OpCode::DIVIDE, 1.0, 0.0)),
        Ok(bits(f64::INFINITY))
    );
    assert_eq!(
        run(binary_program(OpCode::DIVIDE, -1.0, 0.0)),
        Ok(bits(f64::NEG_INFINITY))
    );
    let nan = run(binary_program(OpCode::DIVIDE, 0.0, 0.0)).unwrap();
    assert!(f64::from_bits(nan).is_nan());
}

#[test]
fn single_add_underflows() {
    let mut chunk = Chunk::new();
    chunk.write(OpCode::ADD, 0);
    let mut vm = VM::new(chunk);
    assert_eq!(
        vm.run(arith, quiet),
        Err(InterpretErr::RuntimeErr(RuntimeError::StackUnderflow))
    );
    assert_eq!(vm.status(), Status::Faulted(RuntimeError::StackUnderflow));
    assert_eq!(vm.step(), Step::Faulted(RuntimeError::StackUnderflow));
}

#[test]
fn every_binary_instruction_needs_two_operands() {
    for op in [OpCode::ADD, OpCode::SUBTRACT, OpCode::MULTIPLY, OpCode::DIVIDE] {
        let mut chunk = Chunk::new();
        chunk.write_const(bits(1.0), 0).unwrap();
        chunk.write(op, 0);
        chunk.write(OpCode::RETURN, 0);
        assert_eq!(
            run(chunk),
            Err(InterpretErr::RuntimeErr(RuntimeError::StackUnderflow))
        );
    }
}

#[test]
fn negate_and_return_need_one_operand() {
    for op in [OpCode::NEGATE, OpCode::RETURN] {
        let mut chunk = Chunk::new();
        chunk.write(op, 0);
        assert_eq!(
            run(chunk),
            Err(InterpretErr::RuntimeErr(RuntimeError::StackUnderflow))
        );
    }
}

#[test]
fn negating_twice_gives_the_value_back() {
    for x in [0.0, -0.0, 1.0, -6.4, 3.2, f64::MIN_POSITIVE, f64::MAX, 1e-310] {
        let mut chunk = Chunk::new();
        chunk.write_const(bits(x), 0).unwrap();
        chunk.write(OpCode::NEGATE, 0);
        chunk.write(OpCode::NEGATE, 0);
        chunk.write(OpCode::RETURN, 0);
        let mut vm = VM::new(chunk);
        assert_eq!(vm.step(), Step::Pushed(bits(x)));
        assert_eq!(vm.step(), Step::Negated(bits(-x)));
        assert_eq!(vm.step(), Step::Negated(bits(x)));
        assert_eq!(vm.stack(), &vec![bits(x)]);
        assert_eq!(vm.run(arith, quiet), Ok(bits(x)));
    }
}

#[test]
fn negate_flips_the_sign_as_the_hardware_does() {
    for x in [0.0, -0.0, 1.0, -2.5, f64::INFINITY, f64::NEG_INFINITY, f64::MAX] {
        assert_eq!(negate(bits(x)), bits(-x));
        assert_eq!(negate(negate(bits(x))), bits(x));
    }
    assert_eq!(negate(bits(f64::NAN)), bits(-f64::NAN));
    assert_eq!(negate(0), 0x8000_0000_0000_0000);
}

#[test]
fn empty_chunk_is_truncated() {
    assert_eq!(
        run(Chunk::new()),
        Err(InterpretErr::RuntimeErr(RuntimeError::TruncatedProgram))
    );
}

#[test]
fn running_off_the_end_is_truncated() {
    let mut chunk = Chunk::new();
    chunk.write_const(bits(1.0), 0).unwrap();
    chunk.write(OpCode::NEGATE, 0);
    let mut vm = VM::new(chunk);
    assert_eq!(
        vm.run(arith, quiet),
        Err(InterpretErr::RuntimeErr(RuntimeError::TruncatedProgram))
    );
    assert_eq!(vm.ip(), 3);
    assert_eq!(vm.stack(), &vec![bits(-1.0)]);
}

#[test]
fn operand_cut_short_is_truncated() {
    let mut chunk = Chunk::new();
    chunk.write(OpCode::CONSTANT, 0);
    assert_eq!(
        run(chunk),
        Err(InterpretErr::RuntimeErr(RuntimeError::TruncatedProgram))
    );
    for extra in 0..3 {
        let mut chunk = Chunk::new();
        chunk.write(OpCode::CONSTANT_LONG, 0);
        for _ in 0..extra {
            chunk.write(OpCode::CONSTANT, 0);
        }
        let mut vm = VM::new(chunk);
        assert_eq!(
            vm.run(arith, quiet),
            Err(InterpretErr::RuntimeErr(RuntimeError::TruncatedProgram))
        );
        assert_eq!(vm.ip(), 0);
        assert!(vm.stack().is_empty());
    }
}

#[test]
fn constant_that_is_not_there_is_invalid() {
    let mut chunk = Chunk::new();
    chunk.write(OpCode::CONSTANT, 0);
    chunk.write(OpCode::ADD, 0);
    assert_eq!(
        run(chunk),
        Err(InterpretErr::RuntimeErr(RuntimeError::InvalidConstantIndex))
    );
    let mut chunk = Chunk::new();
    chunk.write_const(bits(1.0), 0).unwrap();
    chunk.write(OpCode::CONSTANT_LONG, 0);
    chunk.write(OpCode::CONSTANT, 0);
    chunk.write(OpCode::CONSTANT, 0);
    chunk.write(OpCode::CONSTANT, 0);
    assert_eq!(
        run(chunk),
        Err(InterpretErr::RuntimeErr(RuntimeError::InvalidConstantIndex))
    );
}

#[test]
fn unknown_opcode_faults() {
    let mut chunk = Chunk::new();
    chunk.write_const(bits(1.0), 0).unwrap();
    chunk.write(OpCode::UNKNOWN, 0);
    chunk.write(OpCode::RETURN, 0);
    let mut vm = VM::new(chunk);
    assert_eq!(
        vm.run(arith, quiet),
        Err(InterpretErr::RuntimeErr(RuntimeError::UnknownOpcode))
    );
    assert_eq!(vm.ip(), 2);
}

#[test]
fn stack_holds_at_most_its_maximum() {
    let mut chunk = Chunk::new();
    for i in 0..STACK_MAX {
        chunk.write_const(i as u64, 0).unwrap();
    }
    chunk.write(OpCode::RETURN, 0);
    assert_eq!(run(chunk), Ok((STACK_MAX - 1) as u64));

    let mut chunk = Chunk::new();
    for i in 0..STACK_MAX + 1 {
        chunk.write_const(i as u64, 0).unwrap();
    }
    chunk.write(OpCode::RETURN, 0);
    let mut vm = VM::new(chunk);
    assert_eq!(
        vm.run(arith, quiet),
        Err(InterpretErr::RuntimeErr(RuntimeError::StackOverflow))
    );
    assert_eq!(vm.stack().len(), STACK_MAX);
    assert_eq!(vm.ip(), 2 * STACK_MAX);
}

#[test]
fn wide_constants_are_pushed() {
    let mut chunk = Chunk::new();
    for i in 0..300u64 {
        chunk.write_const(i, 0).unwrap();
    }
    let mut vm = VM::new(chunk);
    for i in 0..256u64 {
        assert_eq!(vm.step(), Step::Pushed(i));
    }
    assert_eq!(vm.step(), Step::Faulted(RuntimeError::StackOverflow));

    let mut chunk = Chunk::new();
    for i in 0..257u64 {
        chunk.write_const(i + 1000, 0).unwrap();
        chunk.write(OpCode::RETURN, 0);
    }
    let mut vm = VM::new(chunk);
    assert_eq!(vm.run(arith, quiet), Ok(1000));
    let mut chunk = Chunk::new();
    for i in 0..257u64 {
        chunk.write_const(i + 1000, 0).unwrap();
    }
    chunk.write(OpCode::RETURN, 0);
    let code = chunk.code().clone();
    let mut tail = Chunk::new();
    for i in 0..256u64 {
        tail.write_const(i, 0).unwrap();
    }
    tail.write_const(4242, 0).unwrap();
    tail.write(OpCode::RETURN, 0);
    assert_eq!(tail.code(), &code);
    let (instruction, next) = tail.fetch(512);
    assert_eq!(instruction.operand, rock::chunk::Operand::Value(4242));
    assert_eq!(next, 516);
}

#[test]
fn the_sink_sees_every_step() {
    let mut chunk = Chunk::new();
    chunk.write_const(bits(1.0), 0).unwrap();
    chunk.write_const(bits(2.0), 0).unwrap();
    chunk.write(OpCode::ADD, 0);
    chunk.write(OpCode::RETURN, 0);
    let seen = std::cell::RefCell::new(Vec::new());
    let mut vm = VM::new(chunk);
    let result = vm.run(arith, |step| seen.borrow_mut().push(step));
    assert_eq!(result, Ok(bits(3.0)));
    assert_eq!(
        seen.into_inner(),
        vec![
            Step::Pushed(bits(1.0)),
            Step::Pushed(bits(2.0)),
            Step::Arithmetic {
                op: BinaryOp::Add,
                left: bits(1.0),
                right: bits(2.0)
            },
            Step::Returned(bits(3.0)),
        ]
    );
}

#[test]
fn run_on_a_stopped_machine_reports_its_end_again() {
    let mut chunk = Chunk::new();
    chunk.write_const(bits(9.0), 0).unwrap();
    chunk.write(OpCode::RETURN, 0);
    let mut vm = VM::new(chunk);
    assert_eq!(vm.run(arith, quiet), Ok(bits(9.0)));
    assert_eq!(vm.run(arith, quiet), Ok(bits(9.0)));
    vm.free();
    assert_eq!(vm.status(), Status::Returned(bits(9.0)));
    assert_eq!(vm.ip(), 3);
}

#[test]
fn debug_reports_stack_and_listing() {
    let mut chunk = Chunk::new();
    chunk.write_const(bits(9.0), 0).unwrap();
    chunk.write_const(bits(8.0), 1).unwrap();
    chunk.write(OpCode::RETURN, 1);
    let mut vm = VM::new(chunk);
    vm.step();
    let dump = vm.debug();
    assert_eq!(dump.stack, vec![bits(9.0)]);
    assert_eq!(dump.listing.title, "==== test chunk ====");
    assert_eq!(dump.listing.rows.len(), 3);
    assert_eq!(dump.listing.rows[1].offset, 2);
    assert_eq!(dump.listing.rows[1].line, 1);
    assert_eq!(vm.chunk().len(), 5);
    assert_eq!(vm.ip(), 2);
}

#[test]
fn exit_codes_are_distinct() {
    assert_eq!(InterpretErr::CompileErr.exit_code(), 65);
    assert_eq!(
        InterpretErr::RuntimeErr(RuntimeError::StackUnderflow).exit_code(),
        70
    );
    assert_eq!(
        InterpretErr::RuntimeErr(RuntimeError::TruncatedProgram).exit_code(),
        70
    );
    assert_eq!(EXIT_UNREADABLE, 74);
    assert_eq!(EXIT_COMPILE, 65);
    assert_eq!(EXIT_RUNTIME, 70);
}
