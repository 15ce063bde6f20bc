//! What repeated string instructions compare and store, as numbers in memory.
use vstd::prelude::*;
use crate::codegen_value_laws;
use crate::codegen_x87_laws;
use crate::guest_mem;
use crate::guest_mem::GuestMemory;
use crate::rep_memory;
use crate::rep_memory::Run;

verus! {

/// The number of one, two or four bytes at an address, low byte first.
pub open spec fn number(ram: Seq<u8>, at: int, size: u32) -> int {
    if size == 1 {
        ram[at] as int
    } else if size == 2 {
        ram[at] + 0x100 * ram[at + 1]
    } else {
        ram[at] + 0x100 * ram[at + 1] + 0x1_0000 * ram[at + 2] + 0x100_0000 * ram[at + 3]
    }
}

/// So many bytes of a value, as a number.
pub open spec fn part(value: i32, size: u32) -> int {
    if size == 1 {
        value as u32 as int % 0x100
    } else if size == 2 {
        value as u32 as int % 0x1_0000
    } else {
        value as u32 as int
    }
}

/// Where element `i` stands: elements follow each other upward or downward.
pub open spec fn at(start: u32, i: int, size: u32, backwards: bool) -> int {
    if backwards {
        start - size * i
    } else {
        start + size * i
    }
}

/// The two numbers that step `i` compares: with a value, or with each other.
pub open spec fn pair(
    ram: Seq<u8>,
    scan: bool,
    src: u32,
    dst: u32,
    size: u32,
    backwards: bool,
    value: i32,
    i: int,
) -> (int, int) {
    (
        if scan {
            part(value, size)
        } else {
            number(ram, at(src, i, size, backwards), size)
        },
        number(ram, at(dst, i, size, backwards), size),
    )
}

proof fn lemma_element(ram: Seq<u8>, p: int, size: u32)
    requires
        size == 1 || size == 2 || size == 4,
    ensures
        rep_memory::element(ram, p, size) as u32 == number(ram, p, size),
{
    if size == 4 {
        codegen_value_laws::lemma_cast(number(ram, p, size) as u32);
    } else {
        codegen_value_laws::bits_of_words(rep_memory::element(ram, p, size));
    }
}

proof fn lemma_pair(
    run: Run,
    ram: Seq<u8>,
    scan: bool,
    value: i32,
    i: int,
)
    requires
        run.size == 1 || run.size == 2 || run.size == 4,
        run.constant == (if scan {
            Some(rep_memory::low_part(value, run.size))
        } else {
            None
        }),
    ensures
        ({
            let (a, b) = pair(ram, scan, run.src, run.dst, run.size, run.backwards, value, i);
            &&& run.left(ram, i) as u32 == a
            &&& run.right(ram, i) as u32 == b
            &&& run.left(ram, i) == run.right(ram, i) <==> a == b
        }),
{
    vstd::arithmetic::mul::lemma_mul_is_commutative(i, run.size as int);
    lemma_element(ram, at(run.src, i, run.size, run.backwards), run.size);
    lemma_element(ram, at(run.dst, i, run.size, run.backwards), run.size);
    codegen_x87_laws::bits_of_registers(value, 0, 0, 0);
    codegen_value_laws::bits_of_words(value & 0xff);
    codegen_value_laws::bits_of_words(value & 0xffff);
    codegen_value_laws::bits_of_words(run.left(ram, i));
    codegen_value_laws::bits_of_words(run.right(ram, i));
}

proof fn lemma_stop(run: Run, ram: Seq<u8>, i: int, count: int)
    requires
        0 <= i < count,
    ensures
        ({
            let n = run.stop(ram, i, count);
            &&& i <= n < count
            &&& forall|j: int|
                i <= j < n ==> (#[trigger] run.left(ram, j) == run.right(ram, j))
                    == run.while_equal
            &&& n + 1 < count ==> (run.left(ram, n) == run.right(ram, n)) != run.while_equal
        }),
    decreases count - i,
{
    if i + 1 < count && (run.left(ram, i) == run.right(ram, i)) == run.while_equal {
        lemma_stop(run, ram, i + 1, count);
    }
}

/// A repeated comparison goes on as long as the numbers are equal, or as long as they are not,
/// and stops with the first pair that is otherwise, or with the last one. What it answers are the
/// two numbers of the last step.
pub proof fn law_comparisons_stop_in_time(
    ram: Seq<u8>,
    scan: bool,
    src: u32,
    dst: u32,
    size: u32,
    backwards: bool,
    while_equal: bool,
    value: i32,
    count: int,
)
    requires
        size == 1 || size == 2 || size == 4,
        count > 0,
    ensures
        ({
            let run = Run {
                constant: if scan {
                    Some(rep_memory::low_part(value, size))
                } else {
                    None
                },
                src,
                dst,
                size,
                backwards,
                while_equal,
            };
            let n = run.stop(ram, 0, count);
            let (a, b) = pair(ram, scan, src, dst, size, backwards, value, n);
            &&& 0 <= n < count
            &&& forall|i: int|
                0 <= i < n ==> {
                    let (x, y) = #[trigger] pair(
                        ram,
                        scan,
                        src,
                        dst,
                        size,
                        backwards,
                        value,
                        i,
                    );
                    (x == y) == while_equal
                }
            &&& n + 1 < count ==> (a == b) != while_equal
            &&& run.left(ram, n) as u32 == a
            &&& run.right(ram, n) as u32 == b
        }),
{
    let run = Run {
        constant: if scan {
            Some(rep_memory::low_part(value, size))
        } else {
            None
        },
        src,
        dst,
        size,
        backwards,
        while_equal,
    };
    let n = run.stop(ram, 0, count);
    lemma_stop(run, ram, 0, count);
    lemma_pair(run, ram, scan, value, n);
    assert forall|i: int| 0 <= i < n implies ({
        let (x, y) = #[trigger] pair(ram, scan, src, dst, size, backwards, value, i);
        (x == y) == while_equal
    }) by {
        lemma_pair(run, ram, scan, value, i);
        assert((run.left(ram, i) == run.right(ram, i)) == run.while_equal);
    }
}

/// The bytes of a value make up its number.
proof fn lemma_bytes(value: i32)
    ensures
        ({
            let v = value as u32 as int;
            let b0 = rep_memory::value_byte(value, 0) as int;
            let b1 = rep_memory::value_byte(value, 1) as int;
            let b2 = rep_memory::value_byte(value, 2) as int;
            let b3 = rep_memory::value_byte(value, 3) as int;
            &&& b0 + 0x100 * b1 == v % 0x1_0000
            &&& b0 + 0x100 * b1 + 0x1_0000 * b2 + 0x100_0000 * b3 == v
        }),
{
}

/// A repeated store puts the value in every element, upward or downward from the first, and
/// changes no other byte.
pub proof fn law_stores_fill_the_elements(
    m: GuestMemory,
    dst: u32,
    count: u32,
    size: u32,
    backwards: bool,
    value: i32,
    i: int,
)
    requires
        size == 2 || size == 4,
        rep_memory::lowest(m, dst, count, size, backwards) is Some,
        0 <= i < count,
    ensures
        ({
            let low = (rep_memory::lowest(m, dst, count, size, backwards)->0) as int;
            let ram = guest_mem::overwritten(
                m.ram@,
                low,
                rep_memory::repeated(value, size, count),
            );
            let last = at(dst, count - 1, size, backwards);
            &&& number(ram, at(dst, i, size, backwards), size) == part(value, size)
            &&& ram.len() == m.ram@.len()
            &&& forall|p: int|
                0 <= p < ram.len() && (p < dst && p < last || p >= dst + size && p >= last + size)
                    ==> #[trigger] ram[p] == m.ram@[p]
        }),
{
    let low = (rep_memory::lowest(m, dst, count, size, backwards)->0) as int;
    let with = rep_memory::repeated(value, size, count);
    let ram = guest_mem::overwritten(m.ram@, low, with);
    lemma_bytes(value);
    let k = if backwards {
        count - 1 - i
    } else {
        i
    };
    let p = at(dst, i, size, backwards);
    let n = if size == 2 {
        2int
    } else {
        4
    };
    assert(count * size == n * count && size * i == n * i && size * (count - 1) == n * (count - 1))
        by (nonlinear_arith)
        requires
            size == n,
    ;
    if size == 2 {
        assert(p == low + 2 * k);
        assert(with[2 * k] == rep_memory::value_byte(value, (2 * k) % 2));
        assert(with[2 * k + 1] == rep_memory::value_byte(value, (2 * k + 1) % 2));
        assert(ram[p] == with[2 * k]);
        assert(ram[p + 1] == with[2 * k + 1]);
    } else {
        assert(p == low + 4 * k);
        assert(with[4 * k] == rep_memory::value_byte(value, (4 * k) % 4));
        assert(with[4 * k + 1] == rep_memory::value_byte(value, (4 * k + 1) % 4));
        assert(with[4 * k + 2] == rep_memory::value_byte(value, (4 * k + 2) % 4));
        assert(with[4 * k + 3] == rep_memory::value_byte(value, (4 * k + 3) % 4));
        assert(ram[p] == with[4 * k]);
        assert(ram[p + 1] == with[4 * k + 1]);
        assert(ram[p + 2] == with[4 * k + 2]);
        assert(ram[p + 3] == with[4 * k + 3]);
    }
}

} // verus!
