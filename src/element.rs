use vstd::prelude::*;

verus! {

/// The number that bytes encode little-endian: the first byte is the least
/// significant one.
pub open spec fn le_value(b: Seq<u8>) -> nat
    decreases b.len(),
{
    if b.len() == 0 {
        0
    } else {
        b[0] as nat + 256 * le_value(b.drop_first())
    }
}

/// The `n` low bytes of `v`, least significant first.
pub open spec fn le_bytes(v: nat, n: nat) -> Seq<u8>
    decreases n,
{
    if n == 0 {
        Seq::empty()
    } else {
        seq![(v % 256) as u8] + le_bytes(v / 256, (n - 1) as nat)
    }
}

/// `256` raised to the power `n`.
pub open spec fn pow256(n: nat) -> nat
    decreases n,
{
    if n == 0 {
        1
    } else {
        256 * pow256((n - 1) as nat)
    }
}

proof fn lemma_le_value_bound(b: Seq<u8>)
    ensures
        le_value(b) < pow256(b.len()),
    decreases b.len(),
{
    if b.len() > 0 {
        lemma_le_value_bound(b.drop_first());
    }
}

proof fn lemma_le_bytes_value(v: nat, n: nat)
    requires
        v < pow256(n),
    ensures
        le_bytes(v, n).len() == n,
        le_value(le_bytes(v, n)) == v,
    decreases n,
{
    if n > 0 {
        lemma_le_bytes_value(v / 256, (n - 1) as nat);
        let b = le_bytes(v, n);
        assert(b.drop_first() =~= le_bytes(v / 256, (n - 1) as nat));
    }
}

proof fn lemma_mod_twice(v: int, m: int)
    requires
        m > 0,
    ensures
        (v % m) % m == v % m,
        (v % m - m) % m == v % m,
{
    vstd::arithmetic::div_mod::lemma_mod_twice(v, m);
    vstd::arithmetic::div_mod::lemma_mod_sub_multiples_vanish(v % m, m);
}

proof fn lemma_pow256_u64()
    ensures
        pow256(1) == 0x100,
        pow256(2) == 0x1_0000,
        pow256(4) == 0x1_0000_0000,
        pow256(8) == 0x1_0000_0000_0000_0000,
{
    reveal_with_fuel(pow256, 9);
}

proof fn lemma_pow256_monotonic(m: nat, n: nat)
    requires
        m <= n,
    ensures
        pow256(m) <= pow256(n),
    decreases n,
{
    if m < n {
        lemma_pow256_monotonic(m, (n - 1) as nat);
    }
}

/// Reads the `n` bytes at `at` as a little-endian unsigned number.
fn le_load(mem: &[u8], at: usize, n: usize) -> (r: u64)
    requires
        n <= 8,
        at + n <= mem@.len(),
    ensures
        r as nat == le_value(mem@.subrange(at as int, at + n)),
{
    let len = mem.len();
    let mut v: u64 = 0;
    let mut k: usize = n;
    proof {
        lemma_pow256_u64();
        lemma_pow256_monotonic(n as nat, 8);
    }
    while k > 0
        invariant
            k <= n <= 8,
            at + n <= mem@.len() == len,
            pow256(n as nat) <= 0x1_0000_0000_0000_0000,
            v as nat == le_value(mem@.subrange(at + k, at + n)),
            v < pow256((n - k) as nat),
        decreases k,
    {
        let ghost tail = mem@.subrange(at + k, at + n);
        k = k - 1;
        let ghost whole = mem@.subrange(at + k, at + n);
        assert(whole.drop_first() =~= tail);
        proof {
            lemma_pow256_monotonic((n - k) as nat, n as nat);
        }
        v = v * 256 + mem[at + k] as u64;
    }
    v
}

/// Writes the `n` low bytes of `v` at `at`, least significant first.
fn le_store(mem: &mut [u8], at: usize, n: usize, v: u64)
    requires
        at + n <= old(mem)@.len(),
        v < pow256(n as nat),
    ensures
        final(mem)@.len() == old(mem)@.len(),
        forall|j: int|
            0 <= j < old(mem)@.len() && !(at <= j < at + n) ==> final(mem)@[j] == old(mem)@[j],
        le_value(final(mem)@.subrange(at as int, at + n)) == v,
{
    let len = mem.len();
    let mut rest: u64 = v;
    let mut k: usize = 0;
    proof {
        lemma_le_bytes_value(v as nat, n as nat);
    }
    while k < n
        invariant
            k <= n,
            at + n <= old(mem)@.len(),
            mem@.len() == old(mem)@.len() == len,
            le_bytes(v as nat, n as nat).len() == n,
            mem@.subrange(at as int, at + k) + le_bytes(rest as nat, (n - k) as nat)
                =~= le_bytes(v as nat, n as nat),
            forall|j: int|
                0 <= j < old(mem)@.len() && !(at <= j < at + k) ==> mem@[j] == old(mem)@[j],
        decreases n - k,
    {
        let ghost before = mem@;
        mem[at + k] = (rest % 256) as u8;
        assert(mem@.subrange(at as int, at + k + 1) =~= before.subrange(at as int, at + k).push(
            (rest % 256) as u8,
        ));
        assert(le_bytes(rest as nat, (n - k) as nat) =~= seq![(rest % 256) as u8] + le_bytes(
            (rest / 256) as nat,
            (n - k - 1) as nat,
        ));
        rest = rest / 256;
        k = k + 1;
    }
    assert(mem@.subrange(at as int, at + n) =~= le_bytes(v as nat, n as nat));
}

/// A value with a fixed-size byte encoding, read from and written to byte
/// buffers at any offset.
pub trait Element: Sized + Copy {
    /// Number of bytes of the encoding.
    spec fn width() -> nat;

    /// The value that `width()` bytes encode.
    spec fn decode(b: Seq<u8>) -> Self;

    fn byte_width() -> (r: usize)
        ensures
            r as nat == Self::width(),
    ;

    /// Reads the value encoded at `at`.
    fn load(mem: &[u8], at: usize) -> (r: Self)
        requires
            at + Self::width() <= mem@.len(),
        ensures
            r == Self::decode(mem@.subrange(at as int, at + Self::width())),
    ;

    /// Encodes `v` at `at`, leaving every other byte as it was.
    fn store(mem: &mut [u8], at: usize, v: Self)
        requires
            at + Self::width() <= old(mem)@.len(),
        ensures
            final(mem)@.len() == old(mem)@.len(),
            forall|j: int|
                0 <= j < old(mem)@.len() && !(at <= j < at + Self::width()) ==> final(mem)@[j]
                    == old(mem)@[j],
            Self::decode(final(mem)@.subrange(at as int, at + Self::width())) == v,
    ;
}

/// A machine integer whose arithmetic wraps around at its width.
pub trait Scalar: Element {
    /// The mathematical value.
    spec fn value(self) -> int;

    /// The value of this type that is congruent to `v` modulo two to the power
    /// of the type's bit width.
    spec fn wrap(v: int) -> Self;

    /// Two to the power of the bit width.
    spec fn modulus() -> int;

    proof fn lemma_width()
        ensures
            1 <= Self::width() <= 8,
    ;

    /// Wrapping keeps the residue modulo `modulus()`.
    proof fn lemma_wrap_value(v: int)
        ensures
            Self::modulus() > 0,
            Self::wrap(v).value() % Self::modulus() == v % Self::modulus(),
    ;

    /// Wrapping depends on the residue modulo `modulus()` alone.
    proof fn lemma_wrap_congruent(a: int, b: int)
        requires
            a % Self::modulus() == b % Self::modulus(),
        ensures
            Self::wrap(a) == Self::wrap(b),
    ;

    fn mul_wrap(self, o: Self) -> (r: Self)
        ensures
            r == Self::wrap(self.value() * o.value()),
    ;

    fn add_wrap(self, o: Self) -> (r: Self)
        ensures
            r == Self::wrap(self.value() + o.value()),
    ;

    fn sub_wrap(self, o: Self) -> (r: Self)
        ensures
            r == Self::wrap(self.value() - o.value()),
    ;

    fn neg_wrap(self) -> (r: Self)
        ensures
            r == Self::wrap(-self.value()),
    ;
}

/// `v` reduced modulo two to the power of the bit width of `u8`.
pub open spec fn wrap_u8(v: int) -> u8 {
    (v % 0x100) as u8
}

/// `v` reduced into the range of `i8`, two's complement.
pub open spec fn wrap_i8(v: int) -> i8 {
    if v % 0x100 > 0x7f {
        (v % 0x100 - 0x100) as i8
    } else {
        (v % 0x100) as i8
    }
}

/// `v` reduced modulo two to the power of the bit width of `u16`.
pub open spec fn wrap_u16(v: int) -> u16 {
    (v % 0x1_0000) as u16
}

/// `v` reduced into the range of `i16`, two's complement.
pub open spec fn wrap_i16(v: int) -> i16 {
    if v % 0x1_0000 > 0x7fff {
        (v % 0x1_0000 - 0x1_0000) as i16
    } else {
        (v % 0x1_0000) as i16
    }
}

/// `v` reduced modulo two to the power of the bit width of `u32`.
pub open spec fn wrap_u32(v: int) -> u32 {
    (v % 0x1_0000_0000) as u32
}

/// `v` reduced into the range of `i32`, two's complement.
pub open spec fn wrap_i32(v: int) -> i32 {
    if v % 0x1_0000_0000 > 0x7fff_ffff {
        (v % 0x1_0000_0000 - 0x1_0000_0000) as i32
    } else {
        (v % 0x1_0000_0000) as i32
    }
}

/// `v` reduced modulo two to the power of the bit width of `u64`.
pub open spec fn wrap_u64(v: int) -> u64 {
    (v % 0x1_0000_0000_0000_0000) as u64
}

/// `v` reduced into the range of `i64`, two's complement.
pub open spec fn wrap_i64(v: int) -> i64 {
    if v % 0x1_0000_0000_0000_0000 > 0x7fff_ffff_ffff_ffff {
        (v % 0x1_0000_0000_0000_0000 - 0x1_0000_0000_0000_0000) as i64
    } else {
        (v % 0x1_0000_0000_0000_0000) as i64
    }
}

impl Element for u8 {
    open spec fn width() -> nat {
        1
    }

    open spec fn decode(b: Seq<u8>) -> u8 {
        wrap_u8(le_value(b) as int)
    }

    fn byte_width() -> (r: usize) {
        1
    }

    fn load(mem: &[u8], at: usize) -> (r: u8) {
        let v = le_load(mem, at, 1);
        proof {
            lemma_le_value_bound(mem@.subrange(at as int, at + 1));
            lemma_pow256_u64();
        }
        v as u8
    }

    fn store(mem: &mut [u8], at: usize, v: u8) {
        proof {
            lemma_pow256_u64();
        }
        let bits: u64 = v as u64;
        le_store(mem, at, 1, bits);
    }
}

impl Scalar for u8 {
    open spec fn value(self) -> int {
        self as int
    }

    open spec fn wrap(v: int) -> u8 {
        wrap_u8(v)
    }

    open spec fn modulus() -> int {
        0x100
    }

    proof fn lemma_width() {
    }

    proof fn lemma_wrap_value(v: int) {
        lemma_mod_twice(v, 0x100);
    }

    proof fn lemma_wrap_congruent(a: int, b: int) {
    }

    fn mul_wrap(self, o: u8) -> (r: u8) {
        self.wrapping_mul(o)
    }

    fn add_wrap(self, o: u8) -> (r: u8) {
        self.wrapping_add(o)
    }

    fn sub_wrap(self, o: u8) -> (r: u8) {
        self.wrapping_sub(o)
    }

    fn neg_wrap(self) -> (r: u8) {
        (0 as u8).wrapping_sub(self)
    }
}

impl Element for i8 {
    open spec fn width() -> nat {
        1
    }

    open spec fn decode(b: Seq<u8>) -> i8 {
        wrap_i8(le_value(b) as int)
    }

    fn byte_width() -> (r: usize) {
        1
    }

    fn load(mem: &[u8], at: usize) -> (r: i8) {
        let v = le_load(mem, at, 1);
        proof {
            lemma_le_value_bound(mem@.subrange(at as int, at + 1));
            lemma_pow256_u64();
        }
        if v > 0x7f {
            (v as i64 - 0x100) as i8
        } else {
            v as i8
        }
    }

    fn store(mem: &mut [u8], at: usize, v: i8) {
        proof {
            lemma_pow256_u64();
        }
        let bits: u64 = if v < 0 {
            (v as i64 + 0x100) as u64
        } else {
            v as u64
        };
        le_store(mem, at, 1, bits);
    }
}

impl Scalar for i8 {
    open spec fn value(self) -> int {
        self as int
    }

    open spec fn wrap(v: int) -> i8 {
        wrap_i8(v)
    }

    open spec fn modulus() -> int {
        0x100
    }

    proof fn lemma_width() {
    }

    proof fn lemma_wrap_value(v: int) {
        lemma_mod_twice(v, 0x100);
    }

    proof fn lemma_wrap_congruent(a: int, b: int) {
    }

    fn mul_wrap(self, o: i8) -> (r: i8) {
        self.wrapping_mul(o)
    }

    fn add_wrap(self, o: i8) -> (r: i8) {
        self.wrapping_add(o)
    }

    fn sub_wrap(self, o: i8) -> (r: i8) {
        self.wrapping_sub(o)
    }

    fn neg_wrap(self) -> (r: i8) {
        (0 as i8).wrapping_sub(self)
    }
}

impl Element for u16 {
    open spec fn width() -> nat {
        2
    }

    open spec fn decode(b: Seq<u8>) -> u16 {
        wrap_u16(le_value(b) as int)
    }

    fn byte_width() -> (r: usize) {
        2
    }

    fn load(mem: &[u8], at: usize) -> (r: u16) {
        let v = le_load(mem, at, 2);
        proof {
            lemma_le_value_bound(mem@.subrange(at as int, at + 2));
            lemma_pow256_u64();
        }
        v as u16
    }

    fn store(mem: &mut [u8], at: usize, v: u16) {
        proof {
            lemma_pow256_u64();
        }
        let bits: u64 = v as u64;
        le_store(mem, at, 2, bits);
    }
}

impl Scalar for u16 {
    open spec fn value(self) -> int {
        self as int
    }

    open spec fn wrap(v: int) -> u16 {
        wrap_u16(v)
    }

    open spec fn modulus() -> int {
        0x1_0000
    }

    proof fn lemma_width() {
    }

    proof fn lemma_wrap_value(v: int) {
        lemma_mod_twice(v, 0x1_0000);
    }

    proof fn lemma_wrap_congruent(a: int, b: int) {
    }

    fn mul_wrap(self, o: u16) -> (r: u16) {
        self.wrapping_mul(o)
    }

    fn add_wrap(self, o: u16) -> (r: u16) {
        self.wrapping_add(o)
    }

    fn sub_wrap(self, o: u16) -> (r: u16) {
        self.wrapping_sub(o)
    }

    fn neg_wrap(self) -> (r: u16) {
        (0 as u16).wrapping_sub(self)
    }
}

impl Element for i16 {
    open spec fn width() -> nat {
        2
    }

    open spec fn decode(b: Seq<u8>) -> i16 {
        wrap_i16(le_value(b) as int)
    }

    fn byte_width() -> (r: usize) {
        2
    }

    fn load(mem: &[u8], at: usize) -> (r: i16) {
        let v = le_load(mem, at, 2);
        proof {
            lemma_le_value_bound(mem@.subrange(at as int, at + 2));
            lemma_pow256_u64();
        }
        if v > 0x7fff {
            (v as i64 - 0x1_0000) as i16
        } else {
            v as i16
        }
    }

    fn store(mem: &mut [u8], at: usize, v: i16) {
        proof {
            lemma_pow256_u64();
        }
        let bits: u64 = if v < 0 {
            (v as i64 + 0x1_0000) as u64
        } else {
            v as u64
        };
        le_store(mem, at, 2, bits);
    }
}

impl Scalar for i16 {
    open spec fn value(self) -> int {
        self as int
    }

    open spec fn wrap(v: int) -> i16 {
        wrap_i16(v)
    }

    open spec fn modulus() -> int {
        0x1_0000
    }

    proof fn lemma_width() {
    }

    proof fn lemma_wrap_value(v: int) {
        lemma_mod_twice(v, 0x1_0000);
    }

    proof fn lemma_wrap_congruent(a: int, b: int) {
    }

    fn mul_wrap(self, o: i16) -> (r: i16) {
        self.wrapping_mul(o)
    }

    fn add_wrap(self, o: i16) -> (r: i16) {
        self.wrapping_add(o)
    }

    fn sub_wrap(self, o: i16) -> (r: i16) {
        self.wrapping_sub(o)
    }

    fn neg_wrap(self) -> (r: i16) {
        (0 as i16).wrapping_sub(self)
    }
}

impl Element for u32 {
    open spec fn width() -> nat {
        4
    }

    open spec fn decode(b: Seq<u8>) -> u32 {
        wrap_u32(le_value(b) as int)
    }

    fn byte_width() -> (r: usize) {
        4
    }

    fn load(mem: &[u8], at: usize) -> (r: u32) {
        let v = le_load(mem, at, 4);
        proof {
            lemma_le_value_bound(mem@.subrange(at as int, at + 4));
            lemma_pow256_u64();
        }
        v as u32
    }

    fn store(mem: &mut [u8], at: usize, v: u32) {
        proof {
            lemma_pow256_u64();
        }
        let bits: u64 = v as u64;
        le_store(mem, at, 4, bits);
    }
}

impl Scalar for u32 {
    open spec fn value(self) -> int {
        self as int
    }

    open spec fn wrap(v: int) -> u32 {
        wrap_u32(v)
    }

    open spec fn modulus() -> int {
        0x1_0000_0000
    }

    proof fn lemma_width() {
    }

    proof fn lemma_wrap_value(v: int) {
        lemma_mod_twice(v, 0x1_0000_0000);
    }

    proof fn lemma_wrap_congruent(a: int, b: int) {
    }

    fn mul_wrap(self, o: u32) -> (r: u32) {
        self.wrapping_mul(o)
    }

    fn add_wrap(self, o: u32) -> (r: u32) {
        self.wrapping_add(o)
    }

    fn sub_wrap(self, o: u32) -> (r: u32) {
        self.wrapping_sub(o)
    }

    fn neg_wrap(self) -> (r: u32) {
        (0 as u32).wrapping_sub(self)
    }
}

impl Element for i32 {
    open spec fn width() -> nat {
        4
    }

    open spec fn decode(b: Seq<u8>) -> i32 {
        wrap_i32(le_value(b) as int)
    }

    fn byte_width() -> (r: usize) {
        4
    }

    fn load(mem: &[u8], at: usize) -> (r: i32) {
        let v = le_load(mem, at, 4);
        proof {
            lemma_le_value_bound(mem@.subrange(at as int, at + 4));
            lemma_pow256_u64();
        }
        if v > 0x7fff_ffff {
            (v as i64 - 0x1_0000_0000) as i32
        } else {
            v as i32
        }
    }

    fn store(mem: &mut [u8], at: usize, v: i32) {
        proof {
            lemma_pow256_u64();
        }
        let bits: u64 = if v < 0 {
            (v as i64 + 0x1_0000_0000) as u64
        } else {
            v as u64
        };
        le_store(mem, at, 4, bits);
    }
}

impl Scalar for i32 {
    open spec fn value(self) -> int {
        self as int
    }

    open spec fn wrap(v: int) -> i32 {
        wrap_i32(v)
    }

    open spec fn modulus() -> int {
        0x1_0000_0000
    }

    proof fn lemma_width() {
    }

    proof fn lemma_wrap_value(v: int) {
        lemma_mod_twice(v, 0x1_0000_0000);
    }

    proof fn lemma_wrap_congruent(a: int, b: int) {
    }

    fn mul_wrap(self, o: i32) -> (r: i32) {
        self.wrapping_mul(o)
    }

    fn add_wrap(self, o: i32) -> (r: i32) {
        self.wrapping_add(o)
    }

    fn sub_wrap(self, o: i32) -> (r: i32) {
        self.wrapping_sub(o)
    }

    fn neg_wrap(self) -> (r: i32) {
        (0 as i32).wrapping_sub(self)
    }
}

impl Element for u64 {
    open spec fn width() -> nat {
        8
    }

    open spec fn decode(b: Seq<u8>) -> u64 {
        wrap_u64(le_value(b) as int)
    }

    fn byte_width() -> (r: usize) {
        8
    }

    fn load(mem: &[u8], at: usize) -> (r: u64) {
        let v = le_load(mem, at, 8);
        proof {
            lemma_le_value_bound(mem@.subrange(at as int, at + 8));
            lemma_pow256_u64();
        }
        v as u64
    }

    fn store(mem: &mut [u8], at: usize, v: u64) {
        proof {
            lemma_pow256_u64();
        }
        let bits: u64 = v as u64;
        le_store(mem, at, 8, bits);
    }
}

impl Scalar for u64 {
    open spec fn value(self) -> int {
        self as int
    }

    open spec fn wrap(v: int) -> u64 {
        wrap_u64(v)
    }

    open spec fn modulus() -> int {
        0x1_0000_0000_0000_0000
    }

    proof fn lemma_width() {
    }

    proof fn lemma_wrap_value(v: int) {
        lemma_mod_twice(v, 0x1_0000_0000_0000_0000);
    }

    proof fn lemma_wrap_congruent(a: int, b: int) {
    }

    fn mul_wrap(self, o: u64) -> (r: u64) {
        self.wrapping_mul(o)
    }

    fn add_wrap(self, o: u64) -> (r: u64) {
        self.wrapping_add(o)
    }

    fn sub_wrap(self, o: u64) -> (r: u64) {
        self.wrapping_sub(o)
    }

    fn neg_wrap(self) -> (r: u64) {
        (0 as u64).wrapping_sub(self)
    }
}

impl Element for i64 {
    open spec fn width() -> nat {
        8
    }

    open spec fn decode(b: Seq<u8>) -> i64 {
        wrap_i64(le_value(b) as int)
    }

    fn byte_width() -> (r: usize) {
        8
    }

    fn load(mem: &[u8], at: usize) -> (r: i64) {
        let v = le_load(mem, at, 8);
        proof {
            lemma_le_value_bound(mem@.subrange(at as int, at + 8));
            lemma_pow256_u64();
        }
        if v > 0x7fff_ffff_ffff_ffff {
            (v - 0x8000_0000_0000_0000) as i64 + i64::MIN
        } else {
            v as i64
        }
    }

    fn store(mem: &mut [u8], at: usize, v: i64) {
        proof {
            lemma_pow256_u64();
        }
        let bits: u64 = if v < 0 {
            (v - i64::MIN) as u64 + 0x8000_0000_0000_0000
        } else {
            v as u64
        };
        le_store(mem, at, 8, bits);
    }
}

impl Scalar for i64 {
    open spec fn value(self) -> int {
        self as int
    }

    open spec fn wrap(v: int) -> i64 {
        wrap_i64(v)
    }

    open spec fn modulus() -> int {
        0x1_0000_0000_0000_0000
    }

    proof fn lemma_width() {
    }

    proof fn lemma_wrap_value(v: int) {
        lemma_mod_twice(v, 0x1_0000_0000_0000_0000);
    }

    proof fn lemma_wrap_congruent(a: int, b: int) {
    }

    fn mul_wrap(self, o: i64) -> (r: i64) {
        self.wrapping_mul(o)
    }

    fn add_wrap(self, o: i64) -> (r: i64) {
        self.wrapping_add(o)
    }

    fn sub_wrap(self, o: i64) -> (r: i64) {
        self.wrapping_sub(o)
    }

    fn neg_wrap(self) -> (r: i64) {
        (0 as i64).wrapping_sub(self)
    }
}

/// Wrapping each summand first gives the wrapped sum.
pub proof fn lemma_wrap_add<T: Scalar>(a: int, b: int)
    ensures
        T::wrap(T::wrap(a).value() + T::wrap(b).value()) == T::wrap(a + b),
{
    let m = T::modulus();
    T::lemma_wrap_value(a);
    T::lemma_wrap_value(b);
    vstd::arithmetic::div_mod::lemma_add_mod_noop(T::wrap(a).value(), T::wrap(b).value(), m);
    vstd::arithmetic::div_mod::lemma_add_mod_noop(a, b, m);
    T::lemma_wrap_congruent(T::wrap(a).value() + T::wrap(b).value(), a + b);
}

/// Wrapping each operand of a difference first gives the wrapped difference.
pub proof fn lemma_wrap_sub<T: Scalar>(a: int, b: int)
    ensures
        T::wrap(T::wrap(a).value() - T::wrap(b).value()) == T::wrap(a - b),
{
    let m = T::modulus();
    T::lemma_wrap_value(a);
    T::lemma_wrap_value(b);
    vstd::arithmetic::div_mod::lemma_sub_mod_noop(T::wrap(a).value(), T::wrap(b).value(), m);
    vstd::arithmetic::div_mod::lemma_sub_mod_noop(a, b, m);
    T::lemma_wrap_congruent(T::wrap(a).value() - T::wrap(b).value(), a - b);
}

/// Wrapping before negating gives the wrapped negation.
pub proof fn lemma_wrap_neg<T: Scalar>(a: int)
    ensures
        T::wrap(-T::wrap(a).value()) == T::wrap(-a),
{
    let m = T::modulus();
    T::lemma_wrap_value(a);
    T::lemma_wrap_value(0);
    vstd::arithmetic::div_mod::lemma_sub_mod_noop(0, T::wrap(a).value(), m);
    vstd::arithmetic::div_mod::lemma_sub_mod_noop(0, a, m);
    T::lemma_wrap_congruent(-T::wrap(a).value(), -a);
}

/// A complex number as its real and imaginary parts, stored side by side
/// with the real part first.
#[derive(Clone, Copy, Debug, PartialEq, Eq)]
pub struct Complex<T> {
    pub re: T,
    pub im: T,
}

impl<T: Scalar> Element for Complex<T> {
    open spec fn width() -> nat {
        2 * T::width()
    }

    open spec fn decode(b: Seq<u8>) -> Complex<T> {
        Complex {
            re: T::decode(b.subrange(0, T::width() as int)),
            im: T::decode(b.subrange(T::width() as int, 2 * T::width() as int)),
        }
    }

    fn byte_width() -> (r: usize) {
        proof {
            T::lemma_width();
        }
        2 * T::byte_width()
    }

    fn load(mem: &[u8], at: usize) -> (r: Complex<T>) {
        proof {
            T::lemma_width();
        }
        // a slice's length fits in `usize`, and so does `at + 2 * w`
        let _len = mem.len();
        let w = T::byte_width();
        let re = T::load(mem, at);
        let im = T::load(mem, at + w);
        let ghost b = mem@.subrange(at as int, at + 2 * w as int);
        assert(b.subrange(0, w as int) =~= mem@.subrange(at as int, at + w));
        assert(b.subrange(w as int, 2 * w as int) =~= mem@.subrange(at + w, at + w + w));
        Complex { re, im }
    }

    fn store(mem: &mut [u8], at: usize, v: Complex<T>) {
        proof {
            T::lemma_width();
        }
        // a slice's length fits in `usize`, and so does `at + 2 * w`
        let _len = mem.len();
        let w = T::byte_width();
        T::store(mem, at, v.re);
        let ghost mid = mem@;
        T::store(mem, at + w, v.im);
        let ghost b = mem@.subrange(at as int, at + 2 * w as int);
        assert(mem@.subrange(at as int, at + w) =~= mid.subrange(at as int, at + w));
        assert(b.subrange(0, w as int) =~= mem@.subrange(at as int, at + w));
        assert(b.subrange(w as int, 2 * w as int) =~= mem@.subrange(at + w, at + w + w));
    }
}

} // verus!
