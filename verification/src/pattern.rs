//! Signature search over a code image, and decoders for the AArch64
//! instructions that signatures usually point at.

use vstd::prelude::*;

verus! {

/// Page offset encoded by an `adrp` instruction, as this library reads it:
/// the 21-bit immediate (`immhi:immlo`) shifted left by 12, truncated to 32 bits
/// and read as a signed 32-bit number.
pub open spec fn adrp_offset(instruction: u32) -> int {
    let immhi = (instruction as int / 32) % 0x80000;
    let immlo = (instruction as int / 0x20000000) % 4;
    let page = ((immhi * 4 + immlo) % 0x100000) * 0x1000;
    if page >= 0x80000000 { page - 0x100000000 } else { page }
}

/// Decodes the page offset of an `adrp` instruction, sign-extended to `usize`.
pub fn decode_adrp(instruction: u32) -> (offset: usize)
    ensures
        offset as int == adrp_offset(instruction) % (usize::MAX as int + 1),
{
    let immhi = (instruction & 0b0000_0000_1111_1111_1111_1111_1110_0000) >> 3;
    let immlo = (instruction & 0b0110_0000_0000_0000_0000_0000_0000_0000) >> 29;
    let shifted: u32 = (immhi | immlo) << 12;
    assert(immhi == ((instruction / 32) % 0x80000) * 4) by (bit_vector)
        requires immhi == (instruction & 0b0000_0000_1111_1111_1111_1111_1110_0000) >> 3;
    assert(immlo == (instruction / 0x20000000) % 4) by (bit_vector)
        requires immlo == (instruction & 0b0110_0000_0000_0000_0000_0000_0000_0000) >> 29;
    assert((immhi | immlo) == immhi + immlo) by (bit_vector)
        requires immhi % 4 == 0, immlo < 4;
    assert(shifted == ((immhi + immlo) % 0x100000) * 0x1000) by (bit_vector)
        requires shifted == (immhi | immlo) << 12, (immhi | immlo) == immhi + immlo, immhi + immlo < 0x200000;
    // Sign-extend the 32-bit page offset to the width of `usize`.
    let ghost m = usize::MAX as int + 1;
    assert(adrp_offset(instruction) == (if shifted >= 0x8000_0000 { shifted - 0x1_0000_0000 } else { shifted as int }));
    if shifted >= 0x8000_0000 {
        let r = usize::MAX - ((0xFFFF_FFFF - shifted) as usize);
        assert((shifted - 0x1_0000_0000) % m == r) by (nonlinear_arith)
            requires r == m - 1 - (0xFFFF_FFFF - shifted), m >= 0x1_0000_0000, 0x8000_0000 <= shifted < 0x1_0000_0000;
        r
    } else {
        assert(shifted as int % m == shifted) by (nonlinear_arith)
            requires m >= 0x1_0000_0000, 0 <= shifted < 0x8000_0000;
        shifted as usize
    }
}


/// Immediate of an `ldr` (unsigned offset) instruction, scaled by the access size
/// held in the top two bits.
pub open spec fn ldr_offset(instruction: u32) -> int {
    let size = instruction as int / 0x40000000;
    let imm12 = (instruction as int / 0x400) % 0x1000;
    imm12 * (if size == 0 { 1int } else if size == 1 { 2int } else if size == 2 { 4int } else { 8int })
}

/// Decodes the byte offset of an `ldr` instruction with an unsigned immediate.
pub fn decode_ldr_imm(instruction: u32) -> (offset: usize)
    ensures
        offset as int == ldr_offset(instruction),
{
    let size = (instruction & 0b1100_0000_0000_0000_0000_0000_0000_0000) >> 30;
    let imm = (instruction & 0b0000_0000_0011_1111_1111_1100_0000_0000) >> 10;
    assert(size == instruction / 0x40000000) by (bit_vector)
        requires size == (instruction & 0b1100_0000_0000_0000_0000_0000_0000_0000) >> 30;
    assert(imm == (instruction / 0x400) % 0x1000) by (bit_vector)
        requires imm == (instruction & 0b0000_0000_0011_1111_1111_1100_0000_0000) >> 10;
    let imm = imm as usize;
    if size == 0 {
        imm
    } else if size == 1 {
        imm * 2
    } else if size == 2 {
        imm * 4
    } else {
        imm * 8
    }
}

/// Immediate of an `add` (immediate) instruction, without its optional shift.
pub open spec fn add_offset(instruction: u32) -> int {
    (instruction as int / 0x400) % 0x1000
}

/// Decodes the 12-bit immediate of an `add` instruction.
pub fn decode_add_imm(instruction: u32) -> (offset: usize)
    ensures
        offset as int == add_offset(instruction),
{
    let imm = (instruction & 0b001111111111111000000000) >> 10;
    assert(imm == (instruction / 0x400) % 0x1000) by (bit_vector)
        requires imm == (instruction & 0b001111111111111000000000) >> 10;
    imm as usize
}

/// Target of a `b` / `bl` instruction at `curr_address`, as this library computes it:
/// the 26-bit word offset, taken as unsigned, added to the address and reduced modulo 2^26.
pub open spec fn branch_target(instruction: u32, curr_address: int) -> int {
    (curr_address + 4 * (instruction as int % 0x4000000)) % 0x4000000
}

/// Decodes the target of a branch (`b` or `bl`) located at `curr_address`.
pub fn decode_branch(instruction: u32, curr_address: usize) -> (target: usize)
    ensures
        target as int == branch_target(instruction, curr_address as int),
{
    let imm = instruction & 0b0011111111111111111111111111;
    assert(imm == instruction % 0x4000000) by (bit_vector)
        requires imm == instruction & 0b0011111111111111111111111111;
    // Only the low 26 bits of the sum are kept, so the operands are reduced first and
    // the addition cannot overflow.
    let low_address = curr_address & 0b0011111111111111111111111111;
    assert(low_address == curr_address % 0x4000000) by (bit_vector)
        requires low_address == curr_address & 0b0011111111111111111111111111;
    let low_reach = ((imm as u64 * 4) % 0x4000000) as usize;
    let sum = low_address + low_reach;
    let target = sum & 0b0011111111111111111111111111;
    assert(target == sum % 0x4000000) by (bit_vector)
        requires target == sum & 0b0011111111111111111111111111;
    proof {
        vstd::arithmetic::div_mod::lemma_add_mod_noop(curr_address as int, 4 * imm as int, 0x4000000);
    }
    target
}

/// `x + y` as a `usize` addition that wraps around computes it, for `x` and `y` in range.
pub open spec fn wrapping_add_usize(x: int, y: int) -> int {
    if x + y <= usize::MAX {
        x + y
    } else {
        x + y - (usize::MAX + 1)
    }
}

/// Adds `y` to `x`, wrapping around at the width of `usize`.
fn add_wrapping(x: usize, y: usize) -> (sum: usize)
    ensures
        sum == wrapping_add_usize(x as int, y as int),
{
    if x > usize::MAX - y {
        y - (usize::MAX - x) - 1
    } else {
        x + y
    }
}


// ---------------------------------------------------------------------------
// Signature syntax: space-separated hex bytes, `??` for any byte.
// ---------------------------------------------------------------------------

/// Value of `c` as a hexadecimal digit (either case), if it is one.
pub open spec fn hex_digit_value(c: char) -> Option<int> {
    if '0' <= c && c <= '9' {
        Some(c as int - '0' as int)
    } else if 'a' <= c && c <= 'f' {
        Some(c as int - 'a' as int + 10)
    } else if 'A' <= c && c <= 'F' {
        Some(c as int - 'A' as int + 10)
    } else {
        None
    }
}

/// Value of a run of hexadecimal digits, most significant first; `None` if a
/// character is not a digit. The empty run has value 0.
pub open spec fn hex_run_value(s: Seq<char>) -> Option<int>
    decreases s.len(),
{
    if s.len() == 0 {
        Some(0)
    } else {
        match (hex_run_value(s.drop_last()), hex_digit_value(s.last())) {
            (Some(high), Some(low)) => Some(high * 16 + low),
            _ => None,
        }
    }
}

/// `s` with every leading `0x` removed, one after the other.
pub open spec fn strip_hex_prefixes(s: Seq<char>) -> Seq<char>
    decreases s.len(),
{
    if s.len() >= 2 && s[0] == '0' && s[1] == 'x' {
        strip_hex_prefixes(s.skip(2))
    } else {
        s
    }
}

/// A byte written in base 16: an optional `+` followed by at least one hex digit,
/// with a value that fits in a byte.
pub open spec fn hex_byte_value(s: Seq<char>) -> Option<u8> {
    let digits = if s.len() > 0 && s[0] == '+' { s.drop_first() } else { s };
    if digits.len() == 0 {
        None
    } else {
        match hex_run_value(digits) {
            Some(v) => if v <= 255 { Some(v as u8) } else { None },
            None => None,
        }
    }
}

/// One signature token: `Some(None)` for the wildcard `??`, `Some(Some(b))` for a byte,
/// `None` if the token is malformed. Leading `0x` prefixes are ignored.
pub open spec fn signature_token(token: Seq<char>) -> Option<Option<u8>> {
    let t = strip_hex_prefixes(token);
    if t == seq!['?', '?'] {
        Some(None)
    } else {
        match hex_byte_value(t) {
            Some(b) => Some(Some(b)),
            None => None,
        }
    }
}

/// `s` cut at every space; the pieces may be empty. There is always at least one piece.
pub open spec fn split_spaces(s: Seq<char>) -> Seq<Seq<char>>
    decreases s.len(),
{
    if s.len() == 0 {
        seq![Seq::<char>::empty()]
    } else {
        let rest = split_spaces(s.drop_first());
        if s[0] == ' ' {
            seq![Seq::<char>::empty()] + rest
        } else {
            rest.update(0, seq![s[0]] + rest[0])
        }
    }
}

/// Parses a list of tokens; `None` if one of them is malformed.
pub open spec fn parse_tokens(tokens: Seq<Seq<char>>) -> Option<Seq<Option<u8>>>
    decreases tokens.len(),
{
    if tokens.len() == 0 {
        Some(Seq::<Option<u8>>::empty())
    } else {
        match (signature_token(tokens[0]), parse_tokens(tokens.drop_first())) {
            (Some(t), Some(rest)) => Some(seq![t] + rest),
            _ => None,
        }
    }
}

/// The byte pattern that a signature string denotes, `None` if it is malformed.
pub open spec fn parse_signature(pattern: Seq<char>) -> Option<Seq<Option<u8>>> {
    parse_tokens(split_spaces(pattern))
}

/// Whether `pattern` occurs in `data` at offset `i` (wildcards match any byte).
pub open spec fn matches_at(data: Seq<u8>, pattern: Seq<Option<u8>>, i: int) -> bool {
    &&& 0 <= i
    &&& i + pattern.len() <= data.len()
    &&& forall|j: int|
        0 <= j < pattern.len() ==> (#[trigger] pattern[j] matches Some(b) ==> data[i + j] == b)
}

/// Whether `i` is the leftmost offset at which `pattern` occurs in `data`.
pub open spec fn first_match(data: Seq<u8>, pattern: Seq<Option<u8>>, i: int) -> bool {
    &&& matches_at(data, pattern, i)
    &&& forall|k: int| 0 <= k < i ==> !matches_at(data, pattern, k)
}

/// Number of leading wildcards of a pattern.
pub open spec fn leading_wildcards(pattern: Seq<Option<u8>>) -> int
    decreases pattern.len(),
{
    if pattern.len() == 0 || pattern[0] is Some {
        0
    } else {
        1 + leading_wildcards(pattern.drop_first())
    }
}

/// Whether the scanner takes its vectorised path: the data holds at least one
/// 16-byte register per 16 pattern bytes after the first, plus one and a byte.
pub open spec fn vectorised_scan(pattern_len: int, data_len: int) -> bool {
    let vec_count = if pattern_len <= 1 { 1 } else { (pattern_len - 1 + 15) / 16 };
    &&& 0 < pattern_len <= data_len
    &&& data_len >= (vec_count + 1) * 16 + 1
}

/// Whether scanning `data` for `pattern` runs to completion with a meaningful answer: the
/// pattern is well formed and, when the vectorised path is taken, has a literal byte among
/// its first 32 tokens and between 2 and 65536 tokens (the vectorised path reads the pattern
/// from its second byte on, and keeps the index of each literal token in 16 bits).
pub open spec fn scannable(data: Seq<u8>, pattern: Seq<char>) -> bool {
    match parse_signature(pattern) {
        Some(p) => vectorised_scan(p.len() as int, data.len() as int) ==> leading_wildcards(p) < p.len()
            && leading_wildcards(p) < 32 && 2 <= p.len() <= 65536,
        None => false,
    }
}

/// Offset that `lazysimd::get_offset_neon` reports for `pattern` in `data`.
pub uninterp spec fn scanner_offset(data: Seq<u8>, pattern: Seq<char>) -> Option<usize>;

/// Calls `lazysimd::get_offset_neon`. Its result is named `scanner_offset`; beyond that,
/// the contract claims that a reported offset is an occurrence of the pattern, and that it
/// is the leftmost one whenever the pattern starts with a literal byte or the data is
/// short enough for the scalar path. Which offset, if any, it reports for a pattern that
/// starts with wildcards on the vectorised path (taken on x86_64 and aarch64) is left unsaid.
#[verifier::external_body]
fn scan_for(data: &[u8], pattern: &str) -> (found: Option<usize>)
    requires
        scannable(data@, pattern@),
    ensures
        found == scanner_offset(data@, pattern@),
        found matches Some(i) ==> matches_at(data@, parse_signature(pattern@).unwrap(), i as int),
        ({
            let p = parse_signature(pattern@).unwrap();
            (leading_wildcards(p) == 0 || !vectorised_scan(p.len() as int, data@.len() as int))
                ==> match found {
                Some(i) => first_match(data@, p, i as int),
                None => forall|k: int| !matches_at(data@, p, k),
            }
        }),
{
    lazysimd::get_offset_neon(data, pattern)
}


// ---------------------------------------------------------------------------
// Command buffers
// ---------------------------------------------------------------------------

/// One step of a signature search.
pub enum PatternCommand {
    /// Finds the signature in the whole image and makes its offset the result.
    FindInstruction { pattern: String },
    /// Reads an `adrp` at the cursor; its page offset becomes the result.
    DecodeAdrp,
    /// Reads an `ldr` at the cursor and adds its offset to the result.
    DecodeLdr,
    /// Reads an `add` at the cursor and adds its immediate to the result.
    DecodeAdd,
    /// Reads a branch at the cursor and moves the cursor to its target, which becomes
    /// the result.
    DecodeBranch,
    /// Moves the cursor by the given amount, read as a two's complement 64-bit number.
    Offset(u64),
}

/// An ordered list of search steps, run over one image by [`PatternCommandBuffer::search`].
pub struct PatternCommandBuffer {
    commands: Vec<PatternCommand>,
}

/// Why a signature search gave no offset.
pub enum SignatureSearchError {
    Redaction(String),
    NotFound,
}

pub type PatternSearchResult<T> = Result<T, SignatureSearchError>;

/// The state of a search between two steps: the read position in the image and the
/// offset found so far.
#[derive(Clone, Copy, PartialEq, Eq, Structural, Debug)]
pub struct SearchCursor {
    pub position: u64,
    pub offset: usize,
}

/// The 32-bit little-endian word at `i` in `data`.
pub open spec fn le_word(data: Seq<u8>, i: int) -> u32 {
    (data[i] as int + data[i + 1] as int * 0x100 + data[i + 2] as int * 0x10000 + data[i + 3] as int
        * 0x1000000) as u32
}

/// The instruction word that a decoding step reads at the cursor, if four bytes are there.
pub open spec fn word_at_cursor(data: Seq<u8>, position: u64) -> Option<u32> {
    if position as int + 4 <= data.len() {
        Some(le_word(data, position as int))
    } else {
        None
    }
}

/// What one step does to the cursor, given the image and, for a find step, what the scanner
/// reported. Offsets are added with wraparound, as a page offset decoded from an `adrp` may
/// be negative. `None` when the step fails: the signature is absent, fewer than four bytes
/// are left at the cursor, or a move leaves the range of `u64`.
pub open spec fn step_result(
    command: PatternCommand,
    data: Seq<u8>,
    cursor: SearchCursor,
    found: Option<usize>,
) -> Option<SearchCursor> {
    match command {
        PatternCommand::FindInstruction { .. } => match found {
            Some(i) => Some(SearchCursor { position: cursor.position, offset: i }),
            None => None,
        },
        PatternCommand::DecodeAdrp => match word_at_cursor(data, cursor.position) {
            Some(w) => Some(
                SearchCursor {
                    position: (cursor.position + 4) as u64,
                    offset: (adrp_offset(w) % (usize::MAX as int + 1)) as usize,
                },
            ),
            None => None,
        },
        PatternCommand::DecodeLdr => match word_at_cursor(data, cursor.position) {
            Some(w) => Some(
                SearchCursor {
                    position: (cursor.position + 4) as u64,
                    offset: wrapping_add_usize(cursor.offset as int, ldr_offset(w)) as usize,
                },
            ),
            None => None,
        },
        PatternCommand::DecodeAdd => match word_at_cursor(data, cursor.position) {
            Some(w) => Some(
                SearchCursor {
                    position: (cursor.position + 4) as u64,
                    offset: wrapping_add_usize(cursor.offset as int, add_offset(w)) as usize,
                },
            ),
            None => None,
        },
        PatternCommand::DecodeBranch => match word_at_cursor(data, cursor.position) {
            Some(w) => {
                let target = branch_target(w, cursor.position + 4);
                Some(SearchCursor { position: target as u64, offset: target as usize })
            },
            None => None,
        },
        PatternCommand::Offset(delta) => {
            let signed = if delta < 0x8000_0000_0000_0000 {
                delta as int
            } else {
                delta as int - 0x1_0000_0000_0000_0000
            };
            let moved = cursor.position + signed;
            if 0 <= moved <= u64::MAX {
                Some(SearchCursor { position: moved as u64, offset: cursor.offset })
            } else {
                None
            }
        },
    }
}

/// The pattern of a find step, if the command is one.
pub open spec fn command_pattern(command: PatternCommand) -> Option<Seq<char>> {
    match command {
        PatternCommand::FindInstruction { pattern } => Some(pattern@),
        _ => None,
    }
}

/// What the scanner reports for a command: its offset for a find step, nothing otherwise.
pub open spec fn scanned(command: PatternCommand, data: Seq<u8>) -> Option<usize> {
    match command_pattern(command) {
        Some(p) => scanner_offset(data, p),
        None => None,
    }
}

/// Runs `commands` from `cursor`; `None` as soon as a step fails.
pub open spec fn run_commands(commands: Seq<PatternCommand>, data: Seq<u8>, cursor: SearchCursor) -> Option<
    SearchCursor,
>
    decreases commands.len(),
{
    if commands.len() == 0 {
        Some(cursor)
    } else {
        match step_result(commands[0], data, cursor, scanned(commands[0], data)) {
            Some(next) => run_commands(commands.drop_first(), data, next),
            None => None,
        }
    }
}

/// The cursor a search starts from: the start of the image, nothing found yet.
pub open spec fn start_cursor() -> SearchCursor {
    SearchCursor { position: 0, offset: 0 }
}

/// Whether every find step of `commands` can be scanned in `data`.
pub open spec fn all_scannable(commands: Seq<PatternCommand>, data: Seq<u8>) -> bool {
    forall|i: int|
        0 <= i < commands.len() ==> (#[trigger] command_pattern(commands[i]) matches Some(p)
            ==> scannable(data, p))
}

/// What a step keeps and moves, for an image that fits in memory: a find step keeps the
/// read position; a decoding step fails exactly when fewer than four bytes are left at the
/// cursor, and otherwise, but for a branch, advances it past the four bytes it read; a
/// branch leaves the cursor on its target, which is also the result, below 2^26; a move
/// leaves the result alone.
pub proof fn law_step_cursor(command: PatternCommand, data: Seq<u8>, cursor: SearchCursor, found: Option<usize>)
    requires
        data.len() <= usize::MAX,
    ensures
        command is FindInstruction ==> (step_result(command, data, cursor, found) matches Some(next)
            ==> next.position == cursor.position && found == Some(next.offset)),
        command is DecodeAdrp ==> (step_result(command, data, cursor, found) matches Some(next)
            ==> next.position == cursor.position + 4),
        command is DecodeLdr ==> (step_result(command, data, cursor, found) matches Some(next)
            ==> next.position == cursor.position + 4),
        command is DecodeAdd ==> (step_result(command, data, cursor, found) matches Some(next)
            ==> next.position == cursor.position + 4),
        command is DecodeBranch ==> (step_result(command, data, cursor, found) matches Some(next)
            ==> next.position == next.offset && next.offset < 0x4000000),
        command is Offset ==> (step_result(command, data, cursor, found) matches Some(next)
            ==> next.offset == cursor.offset),
        (command is DecodeAdrp || command is DecodeLdr || command is DecodeAdd || command is DecodeBranch) ==> (
        step_result(command, data, cursor, found) is Some <==> cursor.position + 4 <= data.len()),
{
    if command is DecodeBranch {
        if let Some(w) = word_at_cursor(data, cursor.position) {
            let target = branch_target(w, cursor.position + 4);
            assert(0 <= target < 0x4000000);
            assert(target as u64 == target);
            assert(target as usize == target);
        }
    }
}

/// A search over no command gives offset 0, and a search made of one find step gives the
/// offset the scanner reports, or fails when it reports none.
pub proof fn law_single_find(pattern: String, data: Seq<u8>)
    ensures
        run_commands(Seq::<PatternCommand>::empty(), data, start_cursor()) == Some(start_cursor()),
        run_commands(seq![PatternCommand::FindInstruction { pattern }], data, start_cursor()) == match scanner_offset(
            data,
            pattern@,
        ) {
            Some(i) => Some(SearchCursor { position: 0, offset: i }),
            None => None::<SearchCursor>,
        },
{
    let cmds = seq![PatternCommand::FindInstruction { pattern }];
    assert(cmds.drop_first() =~= Seq::<PatternCommand>::empty());
    assert(scanned(cmds[0], data) == scanner_offset(data, pattern@));
    reveal_with_fuel(run_commands, 2);
}

/// Whether `p` occurs somewhere in `data`.
pub open spec fn occurs(data: Seq<u8>, p: Seq<Option<u8>>) -> bool {
    exists|k: int| matches_at(data, p, k)
}

/// Whether the scanner's answer for `p` in `data` is the leftmost occurrence: the pattern
/// starts with a literal byte, or the data is short enough for the scalar path.
pub open spec fn leftmost_scan(data: Seq<u8>, p: Seq<Option<u8>>) -> bool {
    leading_wildcards(p) == 0 || !vectorised_scan(p.len() as int, data.len() as int)
}

/// What the scanner's answer `found` for the signature `pattern` guarantees: a reported
/// offset is an occurrence, the leftmost one when `leftmost_scan` holds, and then no answer
/// means no occurrence.
pub open spec fn scan_agrees(data: Seq<u8>, pattern: Seq<char>, found: Option<usize>) -> bool {
    let p = parse_signature(pattern).unwrap();
    &&& match found {
        Some(i) => matches_at(data, p, i as int),
        None => true,
    }
    &&& leftmost_scan(data, p) ==> match found {
        Some(i) => first_match(data, p, i as int),
        None => !occurs(data, p),
    }
}

/// The cursor after the first `i` steps of a search, `None` if one of them failed.
pub open spec fn run_prefix(commands: Seq<PatternCommand>, data: Seq<u8>, i: int) -> Option<SearchCursor> {
    run_commands(commands.take(i), data, start_cursor())
}

/// What the step at `i` guarantees when it is a find step: the offset it leaves is an
/// occurrence of its pattern (the leftmost one when `leftmost_scan` holds), and, when
/// `leftmost_scan` holds, a pattern that occurs is found.
pub open spec fn find_step_sound(commands: Seq<PatternCommand>, data: Seq<u8>, i: int) -> bool {
    match command_pattern(commands[i]) {
        Some(pat) => {
            let p = parse_signature(pat).unwrap();
            &&& match run_prefix(commands, data, i + 1) {
                Some(c) => matches_at(data, p, c.offset as int) && (leftmost_scan(data, p) ==> first_match(
                    data,
                    p,
                    c.offset as int,
                )),
                None => true,
            }
            &&& (run_prefix(commands, data, i) is Some && leftmost_scan(data, p) && occurs(data, p)) ==> run_prefix(
                commands,
                data,
                i + 1,
            ) is Some
        },
        None => true,
    }
}

/// Whether the step at `i` finds a pattern that occurs nowhere in `data`.
pub open spec fn find_step_unmatched(commands: Seq<PatternCommand>, data: Seq<u8>, i: int) -> bool {
    match command_pattern(commands[i]) {
        Some(pat) => !occurs(data, parse_signature(pat).unwrap()),
        None => false,
    }
}

proof fn lemma_run_concat(a: Seq<PatternCommand>, b: Seq<PatternCommand>, data: Seq<u8>, c: SearchCursor)
    ensures
        run_commands(a + b, data, c) == match run_commands(a, data, c) {
            Some(d) => run_commands(b, data, d),
            None => None,
        },
    decreases a.len(),
{
    if a.len() == 0 {
        assert(a + b =~= b);
    } else {
        assert((a + b)[0] == a[0]);
        assert((a + b).drop_first() =~= a.drop_first() + b);
        match step_result(a[0], data, c, scanned(a[0], data)) {
            Some(n) => lemma_run_concat(a.drop_first(), b, data, n),
            None => {},
        }
    }
}

proof fn lemma_run_prefix_step(commands: Seq<PatternCommand>, data: Seq<u8>, i: int)
    requires
        0 <= i < commands.len(),
    ensures
        run_prefix(commands, data, i + 1) == match run_prefix(commands, data, i) {
            Some(c) => step_result(commands[i], data, c, scanned(commands[i], data)),
            None => None,
        },
{
    let one = seq![commands[i]];
    assert(commands.take(i + 1) =~= commands.take(i) + one);
    lemma_run_concat(commands.take(i), one, data, start_cursor());
    assert(one.drop_first() =~= Seq::<PatternCommand>::empty());
    reveal_with_fuel(run_commands, 2);
}

proof fn lemma_prefix_fails(commands: Seq<PatternCommand>, data: Seq<u8>, k: int, m: int)
    requires
        0 <= k <= m <= commands.len(),
        run_prefix(commands, data, k) is None,
    ensures
        run_prefix(commands, data, m) is None,
    decreases m - k,
{
    if k < m {
        lemma_run_prefix_step(commands, data, k);
        lemma_prefix_fails(commands, data, k + 1, m);
    }
}

/// Reads the little-endian word at `position`.
fn read_word(data: &[u8], position: usize) -> (word: u32)
    requires
        position + 4 <= data@.len(),
    ensures
        word == le_word(data@, position as int),
{
    data[position] as u32 + data[position + 1] as u32 * 0x100 + data[position + 2] as u32 * 0x10000
        + data[position + 3] as u32 * 0x1000000
}

/// Performs one search step on `data`; `found` is what the scanner reported for it when it
/// is a find step, and is ignored otherwise.
pub fn apply_command(command: &PatternCommand, data: &[u8], cursor: SearchCursor, found: Option<usize>) -> (next: Option<
    SearchCursor,
>)
    ensures
        next == step_result(*command, data@, cursor, found),
{
    match command {
        PatternCommand::FindInstruction { .. } => match found {
            Some(i) => Some(SearchCursor { position: cursor.position, offset: i }),
            None => None,
        },
        PatternCommand::DecodeAdrp => {
            if cursor.position > data.len() as u64 || data.len() as u64 - cursor.position < 4 {
                return None;
            }
            let w = read_word(data, cursor.position as usize);
            Some(SearchCursor { position: cursor.position + 4, offset: decode_adrp(w) })
        },
        PatternCommand::DecodeLdr => {
            if cursor.position > data.len() as u64 || data.len() as u64 - cursor.position < 4 {
                return None;
            }
            let w = read_word(data, cursor.position as usize);
            let add = decode_ldr_imm(w);
            Some(SearchCursor { position: cursor.position + 4, offset: add_wrapping(cursor.offset, add) })
        },
        PatternCommand::DecodeAdd => {
            if cursor.position > data.len() as u64 || data.len() as u64 - cursor.position < 4 {
                return None;
            }
            let w = read_word(data, cursor.position as usize);
            let add = decode_add_imm(w);
            Some(SearchCursor { position: cursor.position + 4, offset: add_wrapping(cursor.offset, add) })
        },
        PatternCommand::DecodeBranch => {
            if cursor.position > data.len() as u64 || data.len() as u64 - cursor.position < 4 {
                return None;
            }
            let w = read_word(data, cursor.position as usize);
            let target = decode_branch(w, cursor.position as usize + 4);
            Some(SearchCursor { position: target as u64, offset: target })
        },
        PatternCommand::Offset(delta) => {
            let d = *delta;
            if d < 0x8000_0000_0000_0000 {
                // a forward move
                if cursor.position > u64::MAX - d {
                    return None;
                }
                Some(SearchCursor { position: cursor.position + d, offset: cursor.offset })
            } else {
                // a backward move by the two's complement of `d`
                let back = u64::MAX - d + 1;
                if back > cursor.position {
                    return None;
                }
                Some(SearchCursor { position: cursor.position - back, offset: cursor.offset })
            }
        },
    }
}

impl PatternCommandBuffer {
    /// The commands of the buffer, in order.
    pub closed spec fn commands(self) -> Seq<PatternCommand> {
        self.commands@
    }

    /// An empty buffer.
    pub fn new() -> (buffer: Self)
        ensures
            buffer.commands() == Seq::<PatternCommand>::empty(),
    {
        Self { commands: Vec::new() }
    }

    /// Appends a step that finds `pattern` in the image.
    pub fn find_pattern(self, pattern: &str) -> (buffer: Self)
        ensures
            buffer.commands().len() == self.commands().len() + 1,
            buffer.commands().drop_last() == self.commands(),
            command_pattern(buffer.commands().last()) == Some(pattern@),
    {
        let mut commands = self.commands;
        commands.push(PatternCommand::FindInstruction { pattern: pattern.to_owned() });
        Self { commands }
    }

    /// Runs the steps in order over `data`, starting at its first byte, and returns the
    /// offset that the last step left; `NotFound` when a step fails. A find step leaves an
    /// occurrence of its pattern, and a pattern that occurs nowhere makes the search fail.
    pub fn search(self, data: &[u8]) -> (result: PatternSearchResult<usize>)
        requires
            all_scannable(self.commands(), data@),
        ensures
            result == (match run_commands(self.commands(), data@, start_cursor()) {
                Some(c) => Ok::<usize, SignatureSearchError>(c.offset),
                None => Err(SignatureSearchError::NotFound),
            }),
            forall|i: int|
                0 <= i < self.commands().len() ==> #[trigger] find_step_sound(self.commands(), data@, i),
            forall|i: int|
                0 <= i < self.commands().len() && #[trigger] find_step_unmatched(self.commands(), data@, i)
                    ==> result is Err,
    {
        let ghost cmds = self.commands();
        let mut cursor = SearchCursor { position: 0, offset: 0 };
        let n = self.commands.len();
        let mut i: usize = 0;
        assert(cmds.take(0) =~= Seq::<PatternCommand>::empty());
        while i < n
            invariant
                cmds == self.commands(),
                n == cmds.len(),
                i <= n,
                all_scannable(cmds, data@),
                run_prefix(cmds, data@, i as int) == Some(cursor),
                forall|j: int| 0 <= j < i ==> #[trigger] find_step_sound(cmds, data@, j),
                forall|j: int| 0 <= j < i ==> !#[trigger] find_step_unmatched(cmds, data@, j),
            decreases n - i,
        {
            let command = &self.commands[i];
            assert(*command == cmds[i as int]);
            let found = match command {
                PatternCommand::FindInstruction { pattern } => {
                    assert(command_pattern(cmds[i as int]) == Some(pattern@));
                    let f = scan_for(data, pattern.as_str());
                    assert(scan_agrees(data@, pattern@, f));
                    f
                },
                _ => None,
            };
            assert(found == scanned(cmds[i as int], data@));
            assert(command_pattern(cmds[i as int]) matches Some(pat) ==> scan_agrees(data@, pat, found));
            proof {
                lemma_run_prefix_step(cmds, data@, i as int);
            }
            match apply_command(command, data, cursor, found) {
                Some(next) => {
                    proof {
                        if let Some(pat) = command_pattern(cmds[i as int]) {
                            let p = parse_signature(pat).unwrap();
                            assert(found == Some(next.offset));
                            assert(matches_at(data@, p, next.offset as int));
                        }
                    }
                    assert(find_step_sound(cmds, data@, i as int));
                    assert(!find_step_unmatched(cmds, data@, i as int));
                    cursor = next;
                },
                None => {
                    proof {
                        assert(find_step_sound(cmds, data@, i as int));
                        assert forall|j: int| 0 <= j < n implies #[trigger] find_step_sound(cmds, data@, j) by {
                            if j > i {
                                lemma_prefix_fails(cmds, data@, i + 1, j);
                                lemma_prefix_fails(cmds, data@, i + 1, j + 1);
                            }
                        }
                        lemma_prefix_fails(cmds, data@, i + 1, n as int);
                        assert(cmds.take(n as int) == cmds);
                    }
                    return Err(SignatureSearchError::NotFound);
                },
            }
            i = i + 1;
        }
        assert(cmds.take(n as int) == cmds);
        Ok(cursor.offset)
    }
}

impl Default for PatternCommandBuffer {
    /// An empty buffer.
    fn default() -> (buffer: Self)
        ensures
            buffer.commands() == Seq::<PatternCommand>::empty(),
    {
        Self::new()
    }
}

} // verus!
