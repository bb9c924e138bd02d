//! Reporter: renders one tick's snapshot as a hierarchical text table —
//! a header, a depth-indented line per process with its private and
//! aggregate memory, optionally its word-wrapped argument list, and
//! optionally the machine-wide memory figures.
use vstd::prelude::*;
use std::collections::HashMap;
use crate::process::MemInfo;
use crate::tree::{ProcessEntry, ProcessEntryV, table_view};
use crate::process::ProcessRecordV;
use crate::stats::MemoryStats;
use crate::hwm::ThresholdConfig;

verus! {

broadcast use {
    vstd::std_specs::hash::group_hash_axioms,
    vstd::seq_lib::seq_to_set_is_finite,
    vstd::seq_lib::lemma_seq_contains_after_push,
    vstd::set::group_set_axioms,
};

/// Nodes deeper than this are not descended into; a snapshot would need a
/// parent chain this long to reach it, which no healthy process table
/// shows. The guard bounds the recursion depth defensively, on top of the
/// path guard that already cuts cycles.
pub const DEPTH_LIMIT: usize = 10000;

/// `n` spaces.
pub open spec fn spaces(n: nat) -> Seq<char>
    decreases n,
{
    if n == 0 {
        Seq::empty()
    } else {
        spaces((n - 1) as nat).push(' ')
    }
}

/// The digit character for `d < 10`.
pub open spec fn digit_char(d: nat) -> char {
    if d == 0 {
        '0'
    } else if d == 1 {
        '1'
    } else if d == 2 {
        '2'
    } else if d == 3 {
        '3'
    } else if d == 4 {
        '4'
    } else if d == 5 {
        '5'
    } else if d == 6 {
        '6'
    } else if d == 7 {
        '7'
    } else if d == 8 {
        '8'
    } else {
        '9'
    }
}

/// `n` written in decimal, most significant digit first.
pub open spec fn decimal(n: nat) -> Seq<char>
    decreases n,
{
    if n < 10 {
        seq![digit_char(n)]
    } else {
        decimal(n / 10).push(digit_char(n % 10))
    }
}

/// `s` right-aligned in a field of `w` characters; wider text is kept
/// whole.
pub open spec fn pad_left(s: Seq<char>, w: nat) -> Seq<char> {
    if s.len() >= w {
        s
    } else {
        spaces((w - s.len()) as nat) + s
    }
}

/// `s` left-aligned in a field of `w` characters; wider text is kept
/// whole.
pub open spec fn pad_right(s: Seq<char>, w: nat) -> Seq<char> {
    if s.len() >= w {
        s
    } else {
        s + spaces((w - s.len()) as nat)
    }
}

/// Appends `n` spaces.
fn push_spaces(buffer: &mut String, n: usize)
    ensures
        final(buffer)@ == old(buffer)@ + spaces(n as nat),
{
    let mut i: usize = 0;
    proof {
        assert(buffer@ + spaces(0) =~= buffer@);
    }
    while i < n
        invariant
            i <= n,
            buffer@ == old(buffer)@ + spaces(i as nat),
        decreases n - i,
    {
        buffer.append(" ");
        proof {
            reveal_strlit(" ");
            assert(" "@ =~= seq![' ']);
            assert(spaces((i + 1) as nat) =~= spaces(i as nat).push(' '));
            assert(old(buffer)@ + spaces(i as nat) + " "@ =~= old(buffer)@ + spaces(
                (i + 1) as nat,
            ));
        }
        i += 1;
    }
}

/// Appends one digit character, `d < 10`.
fn push_digit(buffer: &mut String, d: u64)
    requires
        d < 10,
    ensures
        final(buffer)@ == old(buffer)@ + seq![digit_char(d as nat)],
{
    let ghost pre = buffer@;
    if d == 0 {
        buffer.append("0");
        proof {
            reveal_strlit("0");
        }
    } else if d == 1 {
        buffer.append("1");
        proof {
            reveal_strlit("1");
        }
    } else if d == 2 {
        buffer.append("2");
        proof {
            reveal_strlit("2");
        }
    } else if d == 3 {
        buffer.append("3");
        proof {
            reveal_strlit("3");
        }
    } else if d == 4 {
        buffer.append("4");
        proof {
            reveal_strlit("4");
        }
    } else if d == 5 {
        buffer.append("5");
        proof {
            reveal_strlit("5");
        }
    } else if d == 6 {
        buffer.append("6");
        proof {
            reveal_strlit("6");
        }
    } else if d == 7 {
        buffer.append("7");
        proof {
            reveal_strlit("7");
        }
    } else if d == 8 {
        buffer.append("8");
        proof {
            reveal_strlit("8");
        }
    } else {
        buffer.append("9");
        proof {
            reveal_strlit("9");
        }
    }
    proof {
        assert(buffer@ =~= pre + seq![digit_char(d as nat)]);
    }
}

/// Appends `n` in decimal.
fn push_decimal(buffer: &mut String, n: u64)
    ensures
        final(buffer)@ == old(buffer)@ + decimal(n as nat),
    decreases n,
{
    if n >= 10 {
        push_decimal(buffer, n / 10);
        push_digit(buffer, n % 10);
        proof {
            assert(old(buffer)@ + decimal((n / 10) as nat) + seq![digit_char((n % 10) as nat)]
                =~= old(buffer)@ + decimal(n as nat));
        }
    } else {
        push_digit(buffer, n);
    }
}

/// The number of digits `n` takes in decimal.
fn decimal_digits(n: u64) -> (c: usize)
    ensures
        c == decimal(n as nat).len(),
{
    proof {
        reveal_with_fuel(decimal, 25);
    }
    if n < 10 {
        1
    } else if n < 100 {
        2
    } else if n < 1000 {
        3
    } else if n < 10000 {
        4
    } else if n < 100000 {
        5
    } else if n < 1000000 {
        6
    } else if n < 10000000 {
        7
    } else if n < 100000000 {
        8
    } else if n < 1000000000 {
        9
    } else if n < 10000000000 {
        10
    } else if n < 100000000000 {
        11
    } else if n < 1000000000000 {
        12
    } else if n < 10000000000000 {
        13
    } else if n < 100000000000000 {
        14
    } else if n < 1000000000000000 {
        15
    } else if n < 10000000000000000 {
        16
    } else if n < 100000000000000000 {
        17
    } else if n < 1000000000000000000 {
        18
    } else if n < 10000000000000000000 {
        19
    } else {
        20
    }
}

/// Appends `n` in decimal, right-aligned in `width` characters.
fn push_u64_padded(buffer: &mut String, n: u64, width: usize)
    ensures
        final(buffer)@ == old(buffer)@ + pad_left(decimal(n as nat), width as nat),
{
    let c = decimal_digits(n);
    if c < width {
        push_spaces(buffer, width - c);
    }
    push_decimal(buffer, n);
    proof {
        if c < width {
            assert(old(buffer)@ + spaces((width - c) as nat) + decimal(n as nat) =~= old(buffer)@
                + pad_left(decimal(n as nat), width as nat));
        }
    }
}

/// Appends `s`, left-aligned in `width` characters.
fn push_str_padded_right(buffer: &mut String, s: &str, width: usize)
    ensures
        final(buffer)@ == old(buffer)@ + pad_right(s@, width as nat),
{
    let l = s.unicode_len();
    buffer.append(s);
    if l < width {
        push_spaces(buffer, width - l);
        proof {
            assert(old(buffer)@ + s@ + spaces((width - l) as nat) =~= old(buffer)@ + pad_right(
                s@,
                width as nat,
            ));
        }
    }
}

/// Appends `s`, right-aligned in `width` characters.
fn push_str_padded_left(buffer: &mut String, s: &str, width: usize)
    ensures
        final(buffer)@ == old(buffer)@ + pad_left(s@, width as nat),
{
    let l = s.unicode_len();
    if l < width {
        push_spaces(buffer, width - l);
    }
    buffer.append(s);
    proof {
        if l < width {
            assert(old(buffer)@ + spaces((width - l) as nat) + s@ =~= old(buffer)@ + pad_left(
                s@,
                width as nat,
            ));
        }
    }
}

/// The text after the last `/` of a path; the whole path when it holds
/// no `/`, empty when it ends in one.
pub open spec fn basename(path: Seq<char>) -> Seq<char>
    decreases path.len(),
{
    if path.len() == 0 {
        Seq::empty()
    } else if path.last() == '/' {
        Seq::empty()
    } else {
        basename(path.drop_last()).push(path.last())
    }
}

/// `basename` is the suffix that starts right after the last `/`.
proof fn lemma_basename_subrange(s: Seq<char>, cut: int)
    requires
        0 <= cut <= s.len(),
        cut == 0 || s[cut - 1] == '/',
        forall|j: int| cut <= j < s.len() ==> s[j] != '/',
    ensures
        basename(s) == s.subrange(cut, s.len() as int),
    decreases s.len(),
{
    if s.len() == 0 {
        assert(basename(s) =~= s.subrange(0, 0));
    } else if s.last() == '/' {
        assert(cut == s.len());
        assert(basename(s) =~= s.subrange(cut, s.len() as int));
    } else {
        assert(cut < s.len());
        lemma_basename_subrange(s.drop_last(), cut);
        assert(basename(s) =~= s.subrange(cut, s.len() as int));
    }
}

/// The suffix of `s` after its last `/`.
fn basename_str<'a>(s: &'a str) -> (r: &'a str)
    ensures
        r@ == basename(s@),
{
    let l = s.unicode_len();
    let mut cut: usize = 0;
    let mut i: usize = 0;
    while i < l
        invariant
            l == s@.len(),
            0 <= cut <= i <= l,
            cut == 0 || s@[cut - 1] == '/',
            forall|j: int| cut <= j < i ==> s@[j] != '/',
        decreases l - i,
    {
        if s.get_char(i) == '/' {
            cut = i + 1;
        }
        i += 1;
    }
    proof {
        lemma_basename_subrange(s@, cut as int);
    }
    s.substring_char(cut, l)
}

/// The name a process is shown under: the file name of its executable's
/// path, or, when that is empty, the name the snapshot reported.
pub open spec fn display_name(r: ProcessRecordV) -> Seq<char> {
    if basename(r.exe).len() > 0 {
        basename(r.exe)
    } else {
        r.name
    }
}

/// The label of a node's line: its display name and pid for a resolved
/// record, the bare pid otherwise.
pub open spec fn title_of(e: ProcessEntryV, p: u64) -> Seq<char> {
    match e.record {
        Some(r) => display_name(r) + " ("@ + decimal(p as nat) + ")"@,
        None => "("@ + decimal(p as nat) + ")"@,
    }
}

/// The indentation of a node's line.
pub open spec fn indent_of(depth: nat) -> nat {
    2 * depth
}

/// The gap between the title column and the figures; it closes as the
/// indentation grows.
pub open spec fn width_of(depth: nat) -> nat {
    if 2 * depth < 30 {
        (30 - 2 * depth) as nat
    } else {
        0
    }
}

/// The figures shown for a pid: what the Aggregate Calculator recorded,
/// or zero for a pid it never entered.
pub open spec fn stats_or_zero(stats: Map<u64, MemoryStats>, p: u64) -> MemoryStats {
    if stats.contains_key(p) {
        stats[p]
    } else {
        MemoryStats { aggregate_kib: 0, private_kib: 0 }
    }
}

/// The header row of the table.
pub open spec fn header_line() -> Seq<char> {
    "🌊 "@ + pad_right("process"@, 50) + spaces(30) + pad_left("private "@, 9) + "MiB "@
        + pad_left("total "@, 9) + "MiB\n"@
}

/// One node's line: indentation, title, and the node's private and
/// aggregate memory in MiB.
pub open spec fn node_line(e: ProcessEntryV, p: u64, st: MemoryStats, depth: nat) -> Seq<char> {
    "🌊 "@ + spaces(indent_of(depth)) + pad_right(title_of(e, p), 50) + spaces(width_of(depth))
        + pad_left(decimal((st.private_kib / 1024) as nat), 9) + "MiB "@ + pad_left(
        decimal((st.aggregate_kib / 1024) as nat),
        9,
    ) + "MiB\n"@
}

/// One flushed argument line.
pub open spec fn cmd_flush(line: Seq<char>, depth: nat) -> Seq<char> {
    "🌊 "@ + spaces(indent_of(depth)) + line + "\n"@
}

/// Word-wraps the arguments from `i` on, with `line` the partially
/// filled line: a line longer than the wrap width is flushed before the
/// next argument is added, and whatever is left is flushed at the end.
pub open spec fn cmd_rest(args: Seq<Seq<char>>, i: int, line: Seq<char>, depth: nat) -> Seq<char>
    decreases args.len() - i,
{
    if i < 0 || i >= args.len() {
        cmd_flush(line, depth)
    } else if line.len() > 100 {
        cmd_flush(line, depth) + cmd_rest(args, i + 1, "    "@ + " "@ + args[i], depth)
    } else {
        cmd_rest(args, i + 1, line + " "@ + args[i], depth)
    }
}

/// The word-wrapped argument block of one process.
pub open spec fn cmd_lines(args: Seq<Seq<char>>, depth: nat) -> Seq<char> {
    cmd_rest(args, 0, "  "@, depth)
}

/// The argument block a node contributes: present only when the option
/// asks for it and the record resolved.
pub open spec fn cmd_block(e: ProcessEntryV, depth: nat, show_command: bool) -> Seq<char> {
    match e.record {
        Some(r) => if show_command {
            cmd_lines(r.cmd, depth)
        } else {
            Seq::empty()
        },
        None => Seq::empty(),
    }
}

/// Appends the word-wrapped argument block of one process.
fn push_cmd_lines(buffer: &mut String, cmd: &Vec<String>, depth: usize)
    requires
        depth <= DEPTH_LIMIT,
    ensures
        final(buffer)@ == old(buffer)@ + cmd_lines(cmd@.map_values(|s: String| s@), depth as nat),
{
    let ghost args = cmd@.map_values(|s: String| s@);
    let mut line_buffer = String::from_str("  ");
    let mut j: usize = 0;
    while j < cmd.len()
        invariant
            j <= cmd@.len(),
            args == cmd@.map_values(|s: String| s@),
            depth <= DEPTH_LIMIT,
            buffer@ + cmd_rest(args, j as int, line_buffer@, depth as nat) == old(buffer)@
                + cmd_lines(args, depth as nat),
        decreases cmd@.len() - j,
    {
        let ghost line0 = line_buffer@;
        let ghost buf0 = buffer@;
        if line_buffer.as_str().unicode_len() > 100 {
            buffer.append("🌊 ");
            push_spaces(buffer, 2 * depth);
            buffer.append(line_buffer.as_str());
            buffer.append("\n");
            line_buffer = String::from_str("    ");
            proof {
                assert(buffer@ =~= buf0 + cmd_flush(line0, depth as nat));
            }
        }
        let ghost line1 = line_buffer@;
        let ghost buf1 = buffer@;
        line_buffer.append(" ");
        line_buffer.append(cmd[j].as_str());
        proof {
            assert(line_buffer@ =~= line1 + " "@ + args[j as int]);
            if line0.len() > 100 {
                assert(line1 =~= "    "@);
                assert(cmd_rest(args, j as int, line0, depth as nat) == cmd_flush(
                    line0,
                    depth as nat,
                ) + cmd_rest(args, j + 1, "    "@ + " "@ + args[j as int], depth as nat));
                assert(buf1 + cmd_rest(args, j + 1, line_buffer@, depth as nat) =~= buf0 + cmd_rest(
                    args,
                    j as int,
                    line0,
                    depth as nat,
                ));
            } else {
                assert(buf1 == buf0);
                assert(cmd_rest(args, j as int, line0, depth as nat) == cmd_rest(
                    args,
                    j + 1,
                    line0 + " "@ + args[j as int],
                    depth as nat,
                ));
            }
        }
        j += 1;
    }
    let ghost bufn = buffer@;
    let ghost linen = line_buffer@;
    buffer.append("🌊 ");
    push_spaces(buffer, 2 * depth);
    buffer.append(line_buffer.as_str());
    buffer.append("\n");
    proof {
        assert(buffer@ =~= bufn + cmd_flush(linen, depth as nat));
        assert(cmd_rest(args, cmd@.len() as int, linen, depth as nat) == cmd_flush(
            linen,
            depth as nat,
        ));
    }
}

/// Appends one node's line.
#[verifier::rlimit(100)]
fn push_node_line(buffer: &mut String, entry: &ProcessEntry, p: u64, st: MemoryStats, depth: usize)
    requires
        depth <= DEPTH_LIMIT,
    ensures
        final(buffer)@ == old(buffer)@ + node_line(entry@, p, st, depth as nat),
{
    let mut title = String::new();
    match &entry.record {
        Some(r) => {
            let base = basename_str(r.exe.as_str());
            if base.unicode_len() > 0 {
                title.append(base);
            } else {
                title.append(r.name.as_str());
            }
            title.append(" (");
            push_decimal(&mut title, p);
            title.append(")");
            proof {
                assert(title@ =~= title_of(entry@, p));
            }
        },
        None => {
            title.append("(");
            push_decimal(&mut title, p);
            title.append(")");
            proof {
                assert(title@ =~= title_of(entry@, p));
            }
        },
    }
    buffer.append("🌊 ");
    push_spaces(buffer, 2 * depth);
    push_str_padded_right(buffer, title.as_str(), 50);
    let gap: usize = if 2 * depth < 30 {
        30 - 2 * depth
    } else {
        0
    };
    push_spaces(buffer, gap);
    push_u64_padded(buffer, st.private_kib / 1024, 9);
    buffer.append("MiB ");
    push_u64_padded(buffer, st.aggregate_kib / 1024, 9);
    buffer.append("MiB\n");
    proof {
        assert(buffer@ =~= old(buffer)@ + node_line(entry@, p, st, depth as nat));
    }
}

/// The text the subtree rooted at `p` contributes, depth-first, with
/// `seen` the pids already on the current path: a pid that is absent,
/// already on the path, or beyond the depth guard contributes nothing.
pub open spec fn entry_lines(
    t: Map<u64, ProcessEntryV>,
    stats: Map<u64, MemoryStats>,
    p: u64,
    depth: nat,
    seen: Set<u64>,
    show_command: bool,
) -> Seq<char>
    decreases t.dom().difference(seen).len(), 0nat, 0nat,
        when t.dom().finite() && seen.finite()
        via entry_lines_decreases
{
    if !t.contains_key(p) || seen.contains(p) || depth > DEPTH_LIMIT {
        Seq::empty()
    } else {
        node_line(t[p], p, stats_or_zero(stats, p), depth) + cmd_block(t[p], depth, show_command)
            + children_lines(t, stats, t[p].children, depth + 1, seen.insert(p), show_command)
    }
}

/// The concatenated text of a list of child subtrees, left to right.
pub open spec fn children_lines(
    t: Map<u64, ProcessEntryV>,
    stats: Map<u64, MemoryStats>,
    cs: Seq<u64>,
    depth: nat,
    seen: Set<u64>,
    show_command: bool,
) -> Seq<char>
    decreases t.dom().difference(seen).len(), 1nat, cs.len(),
        when t.dom().finite() && seen.finite()
{
    if cs.len() == 0 {
        Seq::empty()
    } else {
        children_lines(t, stats, cs.drop_last(), depth, seen, show_command) + entry_lines(
            t,
            stats,
            cs.last(),
            depth,
            seen,
            show_command,
        )
    }
}

#[via_fn]
proof fn entry_lines_decreases(
    t: Map<u64, ProcessEntryV>,
    stats: Map<u64, MemoryStats>,
    p: u64,
    depth: nat,
    seen: Set<u64>,
    show_command: bool,
) {
    if t.contains_key(p) && !seen.contains(p) && depth <= DEPTH_LIMIT {
        crate::stats::lemma_seen_insert_shrinks(t, p, seen);
    }
}

/// Renders the subtree rooted at `p` into `buffer`, depth-first, one
/// line per node, each child indented one step below its parent, with
/// the argument block when the options ask for it. `visited` is the
/// current path and is restored before returning.
pub fn record_high_water_mark_entry(
    buffer: &mut String,
    p: u64,
    process_children: &HashMap<u64, ProcessEntry>,
    process_memory: &HashMap<u64, MemoryStats>,
    depth: usize,
    options: &ThresholdConfig,
    visited: &mut Vec<u64>,
)
    requires
        table_view(process_children@).contains_key(p),
        !old(visited)@.contains(p),
        depth <= DEPTH_LIMIT,
    ensures
        final(visited)@ == old(visited)@,
        final(buffer)@ == old(buffer)@ + entry_lines(
            table_view(process_children@),
            process_memory@,
            p,
            depth as nat,
            old(visited)@.to_set(),
            options.show_command,
        ),
    decreases table_view(process_children@).dom().difference(old(visited)@.to_set()).len(),
{
    let ghost t = table_view(process_children@);
    let ghost stats = process_memory@;
    let ghost seen0 = old(visited)@.to_set();
    proof {
        assert(t.dom() =~= process_children@.dom());
        assert(process_children@.dom().finite());
        assert(seen0.finite());
    }
    let entry_opt = process_children.get(&p);
    if entry_opt.is_none() {
        proof {
            assert(process_children@.contains_key(p));
            assert(false);
        }
    }
    let entry = entry_opt.unwrap();
    proof {
        assert(entry@ == t[p]);
    }
    let st: MemoryStats = match process_memory.get(&p) {
        Some(s) => *s,
        None => MemoryStats { aggregate_kib: 0, private_kib: 0 },
    };
    proof {
        assert(st == stats_or_zero(stats, p));
    }
    push_node_line(buffer, entry, p, st, depth);
    match &entry.record {
        Some(r) => {
            if options.show_command {
                push_cmd_lines(buffer, &r.cmd, depth);
            }
        },
        None => {},
    }
    proof {
        assert(buffer@ =~= old(buffer)@ + node_line(t[p], p, stats_or_zero(stats, p), depth as nat)
            + cmd_block(t[p], depth as nat, options.show_command));
    }
    let ghost buf_head = buffer@;
    visited.push(p);
    let ghost seen = seen0.insert(p);
    proof {
        assert(visited@.to_set() =~= seen);
        crate::stats::lemma_seen_insert_shrinks(t, p, seen0);
    }
    let ghost cs = t[p].children;
    let mut j: usize = 0;
    proof {
        assert(cs.take(0) =~= Seq::<u64>::empty());
    }
    while j < entry.children.len()
        invariant
            j <= cs.len(),
            cs == t[p].children,
            entry@ == t[p],
            t == table_view(process_children@),
            stats == process_memory@,
            t.dom().finite(),
            seen.finite(),
            t.contains_key(p),
            depth <= DEPTH_LIMIT,
            visited@ == old(visited)@.push(p),
            visited@.to_set() == seen,
            seen == seen0.insert(p),
            seen0 == old(visited)@.to_set(),
            t.dom().difference(seen).len() < t.dom().difference(seen0).len(),
            buffer@ == buf_head + children_lines(
                t,
                stats,
                cs.take(j as int),
                (depth + 1) as nat,
                seen,
                options.show_command,
            ),
        decreases cs.len() - j,
    {
        let c = entry.children[j];
        proof {
            assert(cs[j as int] == c);
        }
        let resolvable = process_children.contains_key(&c);
        let on_path = crate::stats::vec_contains_u64(visited, c);
        if resolvable && !on_path && depth < DEPTH_LIMIT {
            proof {
                assert(t.contains_key(c));
                assert(!visited@.contains(c));
                assert(visited@.to_set() == seen);
                assert(table_view(process_children@).dom().difference(visited@.to_set()).len()
                    < table_view(process_children@).dom().difference(
                    old(visited)@.to_set(),
                ).len());
            }
            record_high_water_mark_entry(
                buffer,
                c,
                process_children,
                process_memory,
                depth + 1,
                options,
                visited,
            );
        } else {
            proof {
                if !resolvable {
                    assert(!t.contains_key(c));
                    assert(entry_lines(t, stats, c, (depth + 1) as nat, seen, options.show_command)
                        =~= Seq::<char>::empty());
                } else if on_path {
                    assert(visited@.contains(c));
                    assert(seen.contains(c));
                    assert(entry_lines(t, stats, c, (depth + 1) as nat, seen, options.show_command)
                        =~= Seq::<char>::empty());
                } else {
                    assert(depth + 1 > DEPTH_LIMIT);
                    assert(entry_lines(t, stats, c, (depth + 1) as nat, seen, options.show_command)
                        =~= Seq::<char>::empty());
                }
            }
        }
        proof {
            assert(cs.take(j + 1).drop_last() =~= cs.take(j as int));
            assert(cs.take(j + 1).last() == cs[j as int]);
            assert(children_lines(t, stats, cs.take(j + 1), (depth + 1) as nat, seen, options.show_command)
                == children_lines(t, stats, cs.take(j as int), (depth + 1) as nat, seen, options.show_command)
                + entry_lines(t, stats, cs[j as int], (depth + 1) as nat, seen, options.show_command));
            assert(buffer@ =~= buf_head + children_lines(
                t,
                stats,
                cs.take(j + 1),
                (depth + 1) as nat,
                seen,
                options.show_command,
            ));
        }
        j += 1;
    }
    let popped = visited.pop();
    proof {
        assert(visited@ =~= old(visited)@);
        assert(cs.take(cs.len() as int) =~= cs);
        assert(buffer@ =~= old(buffer)@ + entry_lines(
            t,
            stats,
            p,
            depth as nat,
            seen0,
            options.show_command,
        ));
    }
}

/// The whole table of one report: the header, the subtree of the watched
/// pid when the table still resolves it, and a closing blank line.
pub open spec fn report_table(
    t: Map<u64, ProcessEntryV>,
    stats: Map<u64, MemoryStats>,
    p: u64,
    show_command: bool,
) -> Seq<char> {
    header_line() + (if t.contains_key(p) {
        entry_lines(t, stats, p, 0, Set::empty(), show_command)
    } else {
        Seq::empty()
    }) + "\n"@
}

/// Renders one report's table into `buffer`: the header row, then the
/// depth-indented line of every process of the watched subtree.
pub fn print_stats(
    buffer: &mut String,
    pid: u64,
    process_children: &HashMap<u64, ProcessEntry>,
    process_memory: &HashMap<u64, MemoryStats>,
    options: &ThresholdConfig,
)
    ensures
        final(buffer)@ == old(buffer)@ + report_table(
            table_view(process_children@),
            process_memory@,
            pid,
            options.show_command,
        ),
{
    let ghost t = table_view(process_children@);
    proof {
        assert(t.dom() =~= process_children@.dom());
    }
    buffer.append("🌊 ");
    push_str_padded_right(buffer, "process", 50);
    push_spaces(buffer, 30);
    push_str_padded_left(buffer, "private ", 9);
    buffer.append("MiB ");
    push_str_padded_left(buffer, "total ", 9);
    buffer.append("MiB\n");
    proof {
        assert(buffer@ =~= old(buffer)@ + header_line());
    }
    let ghost buf_head = buffer@;
    if process_children.contains_key(&pid) {
        let mut visited: Vec<u64> = Vec::new();
        proof {
            assert(!visited@.contains(pid));
            assert(visited@.to_set() =~= Set::<u64>::empty());
        }
        record_high_water_mark_entry(
            buffer,
            pid,
            process_children,
            process_memory,
            0,
            options,
            &mut visited,
        );
    }
    buffer.append("\n");
    proof {
        assert(buffer@ =~= old(buffer)@ + report_table(
            t,
            process_memory@,
            pid,
            options.show_command,
        ));
    }
}

/// The machine-wide memory block of a report, all figures in MiB.
pub open spec fn free_stats_lines(m: MemInfo) -> Seq<char> {
    "🌊                 total        used        free   available\n"@ + "🌊   Mem:   "@
        + pad_left(decimal((m.total_kib / 1024) as nat), 10) + "Mi"@ + pad_left(
        decimal((m.used_kib / 1024) as nat),
        10,
    ) + "Mi"@ + pad_left(decimal((m.free_kib / 1024) as nat), 10) + "Mi"@ + pad_left(
        decimal((m.available_kib / 1024) as nat),
        10,
    ) + "Mi\n"@ + "🌊   Swap:  "@ + pad_left(decimal((m.swap_total_kib / 1024) as nat), 10) + "Mi"@
        + pad_left(decimal((m.swap_used_kib / 1024) as nat), 10) + "Mi"@ + pad_left(
        decimal((m.swap_free_kib / 1024) as nat),
        10,
    ) + "Mi\n"@
}

/// Appends the machine-wide memory and swap figures, like `free(1)`.
#[verifier::rlimit(100)]
pub fn write_free_stats(buffer: &mut String, mem: &MemInfo)
    ensures
        final(buffer)@ == old(buffer)@ + free_stats_lines(*mem),
{
    buffer.append("🌊                 total        used        free   available\n");
    buffer.append("🌊   Mem:   ");
    push_u64_padded(buffer, mem.total_kib / 1024, 10);
    buffer.append("Mi");
    push_u64_padded(buffer, mem.used_kib / 1024, 10);
    buffer.append("Mi");
    push_u64_padded(buffer, mem.free_kib / 1024, 10);
    buffer.append("Mi");
    push_u64_padded(buffer, mem.available_kib / 1024, 10);
    buffer.append("Mi\n");
    buffer.append("🌊   Swap:  ");
    push_u64_padded(buffer, mem.swap_total_kib / 1024, 10);
    buffer.append("Mi");
    push_u64_padded(buffer, mem.swap_used_kib / 1024, 10);
    buffer.append("Mi");
    push_u64_padded(buffer, mem.swap_free_kib / 1024, 10);
    buffer.append("Mi\n");
    proof {
        assert(buffer@ =~= old(buffer)@ + free_stats_lines(*mem));
    }
}

/// The line a tick's report opens with: whether a new high water mark
/// was reached or the tree is presently at the shown size, in MiB.
pub open spec fn message_line(reached: bool, aggregate_kib: u64) -> Seq<char> {
    "🌊 gotta-watch-em-all: "@ + (if reached {
        "high water mark reached"@
    } else {
        "presently at"@
    }) + ": "@ + decimal((aggregate_kib / 1024) as nat) + " MiB used\n"@
}

/// Appends the report's opening message line.
pub fn write_message_line(buffer: &mut String, reached: bool, aggregate_kib: u64)
    ensures
        final(buffer)@ == old(buffer)@ + message_line(reached, aggregate_kib),
{
    buffer.append("🌊 gotta-watch-em-all: ");
    if reached {
        buffer.append("high water mark reached");
    } else {
        buffer.append("presently at");
    }
    buffer.append(": ");
    push_decimal(buffer, aggregate_kib / 1024);
    buffer.append(" MiB used\n");
    proof {
        assert(buffer@ =~= old(buffer)@ + message_line(reached, aggregate_kib));
    }
}

/// The line appended when writing into the buffer itself failed.
pub open spec fn write_err_line(msg: Seq<char>) -> Seq<char> {
    "🌊 gotta-watch-em-all: error "@ + msg + "\n"@
}

/// Appends a line reporting a buffer-write error, so that a failed write
/// leaves its trace in the output instead of being lost.
pub fn handle_write_err(buffer: &mut String, err: &str)
    ensures
        final(buffer)@ == old(buffer)@ + write_err_line(err@),
{
    buffer.append("🌊 gotta-watch-em-all: error ");
    buffer.append(err);
    buffer.append("\n");
    proof {
        assert(buffer@ =~= old(buffer)@ + write_err_line(err@));
    }
}

} // verus!

