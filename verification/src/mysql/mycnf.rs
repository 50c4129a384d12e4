//! The `my.cnf` option-file model: lines before the first `[block]` header,
//! then named blocks of lines.  Reading, rendering, looking up, setting and
//! commenting out `key=value` lines, each specified over the model
//! `CnfView` and proved against it.
use vstd::prelude::*;
use crate::text;

verus! {

broadcast use vstd::seq_lib::group_seq_properties;

// ---------------------------------------------------------------------------
// Model
// ---------------------------------------------------------------------------

/// A block as the specifications see it: its name and its lines.
#[verifier::ext_equal]
pub struct BlockView {
    pub name: Seq<char>,
    pub lines: Seq<Seq<char>>,
}

/// A whole option file as the specifications see it.
#[verifier::ext_equal]
pub struct CnfView {
    pub pre_lines: Seq<Seq<char>>,
    pub blocks: Seq<BlockView>,
}

/// A block name as the header grammar `^\[([^\[\]]+)\]$` accepts it.
pub open spec fn valid_block_name(n: Seq<char>) -> bool {
    &&& n.len() > 0
    &&& forall|i: int| 0 <= i < n.len() ==> #[trigger] n[i] != '[' && n[i] != ']'
}

/// The block name that a (trimmed) line declares, if it is a header line.
pub open spec fn header_name(t: Seq<char>) -> Option<Seq<char>> {
    if t.len() >= 2 && t[0] == '[' && t[t.len() - 1] == ']' && valid_block_name(
        t.subrange(1, t.len() - 1),
    ) {
        Some(t.subrange(1, t.len() - 1))
    } else {
        None
    }
}

/// The header line written for a block name.
pub open spec fn header_line(name: Seq<char>) -> Seq<char> {
    seq!['['] + name + seq![']']
}

// ---------------------------------------------------------------------------
// Reading
// ---------------------------------------------------------------------------

/// The state of a reader part-way through the lines.
#[verifier::ext_equal]
pub struct ParseState {
    pub pre_lines: Seq<Seq<char>>,
    pub blocks: Seq<BlockView>,
    pub current: Option<BlockView>,
}

pub open spec fn parse_start() -> ParseState {
    ParseState { pre_lines: seq![], blocks: seq![], current: None }
}

/// One line read: a header closes the open block and opens a new one;
/// any other line, trimmed, joins the open block or, before any header,
/// the leading lines.
pub open spec fn parse_step(st: ParseState, line: Seq<char>) -> ParseState {
    let t = text::trim(line);
    match header_name(t) {
        Some(n) => ParseState {
            pre_lines: st.pre_lines,
            blocks: match st.current {
                Some(b) => st.blocks.push(b),
                None => st.blocks,
            },
            current: Some(BlockView { name: n, lines: seq![] }),
        },
        None => match st.current {
            Some(b) => ParseState {
                pre_lines: st.pre_lines,
                blocks: st.blocks,
                current: Some(BlockView { name: b.name, lines: b.lines.push(t) }),
            },
            None => ParseState {
                pre_lines: st.pre_lines.push(t),
                blocks: st.blocks,
                current: None,
            },
        },
    }
}

pub open spec fn parse_from(st: ParseState, lines: Seq<Seq<char>>) -> ParseState
    decreases lines.len(),
{
    if lines.len() == 0 {
        st
    } else {
        parse_step(parse_from(st, lines.drop_last()), lines.last())
    }
}

/// Closing the reader: the open block is kept unless the block read before
/// it has the same name.
pub open spec fn parse_finish(st: ParseState) -> CnfView {
    match st.current {
        None => CnfView { pre_lines: st.pre_lines, blocks: st.blocks },
        Some(b) => if st.blocks.len() > 0 && st.blocks.last().name == b.name {
            CnfView { pre_lines: st.pre_lines, blocks: st.blocks }
        } else {
            CnfView { pre_lines: st.pre_lines, blocks: st.blocks.push(b) }
        },
    }
}

/// The option file that a sequence of lines reads as.
pub open spec fn parse_cnf(lines: Seq<Seq<char>>) -> CnfView {
    parse_finish(parse_from(parse_start(), lines))
}

// ---------------------------------------------------------------------------
// Rendering
// ---------------------------------------------------------------------------

pub open spec fn block_lines(b: BlockView) -> Seq<Seq<char>> {
    seq![header_line(b.name)] + b.lines
}

pub open spec fn blocks_lines(bs: Seq<BlockView>) -> Seq<Seq<char>>
    decreases bs.len(),
{
    if bs.len() == 0 {
        seq![]
    } else {
        blocks_lines(bs.drop_last()) + block_lines(bs.last())
    }
}

/// The lines written for an option file: the leading lines, then each block
/// as its header line followed by its lines.
pub open spec fn render(c: CnfView) -> Seq<Seq<char>> {
    c.pre_lines + blocks_lines(c.blocks)
}

// ---------------------------------------------------------------------------
// Looking up, setting and commenting out keys
// ---------------------------------------------------------------------------

/// Index of the first block named `name` at or after `i` (`bs.len()` if none).
pub open spec fn block_index_from(bs: Seq<BlockView>, name: Seq<char>, i: int) -> int
    decreases bs.len() - i,
{
    if 0 <= i < bs.len() {
        if bs[i].name == name {
            i
        } else {
            block_index_from(bs, name, i + 1)
        }
    } else {
        bs.len() as int
    }
}

pub open spec fn block_index(bs: Seq<BlockView>, name: Seq<char>) -> int {
    block_index_from(bs, name, 0)
}

/// What a line yields when looking `key` up: for a line that does not start
/// with `#` and whose part before the first `=`, trimmed, is `key`, that
/// trimmed part and the trimmed rest of the line.
pub open spec fn config_pair(line: Seq<char>, key: Seq<char>) -> Option<(Seq<char>, Seq<char>)> {
    let k = text::find(line, '=');
    if text::starts_with_char(line, '#') {
        None
    } else if k < line.len() && text::trim(line.subrange(0, k)) == key {
        Some((key, text::trim(line.subrange(k + 1, line.len() as int))))
    } else {
        None
    }
}

/// The first line at or after `i` that yields a pair for `key`.
pub open spec fn first_pair_from(lines: Seq<Seq<char>>, key: Seq<char>, i: int) -> Option<
    (Seq<char>, Seq<char>),
>
    decreases lines.len() - i,
{
    if 0 <= i < lines.len() {
        match config_pair(lines[i], key) {
            Some(p) => Some(p),
            None => first_pair_from(lines, key, i + 1),
        }
    } else {
        None
    }
}

/// The value that a lookup of `key` in the first block named `block` gives.
pub open spec fn lookup(bs: Seq<BlockView>, block: Seq<char>, key: Seq<char>) -> Option<
    (Seq<char>, Seq<char>),
> {
    let i = block_index(bs, block);
    if i < bs.len() {
        first_pair_from(bs[i].lines, key, 0)
    } else {
        None
    }
}

/// A line that assigns `key`: in the trimmed line, the part before the first
/// `=`, trimmed, is `key`.
pub open spec fn assigns_key(line: Seq<char>, key: Seq<char>) -> bool {
    let t = text::trim(line);
    let k = text::find(t, '=');
    k < t.len() && text::trim(t.subrange(0, k)) == key
}

/// A line that assigns `key` once its leading `#`s are removed.
pub open spec fn assigns_key_commented(line: Seq<char>, key: Seq<char>) -> bool {
    assigns_key(text::strip_leading(line, '#'), key)
}

/// The line `key=value`.
pub open spec fn kv_line(key: Seq<char>, value: Seq<char>) -> Seq<char> {
    key + seq!['='] + value
}

/// Some line before index `j` assigns `key`.
pub open spec fn assigned_before(lines: Seq<Seq<char>>, key: Seq<char>, j: int) -> bool {
    exists|k: int| 0 <= k < j && #[trigger] assigns_key(lines[k], key)
}

/// The index of the first line at or after `i` that assigns `key` once
/// uncommented (`lines.len()` if none).
pub open spec fn commented_index_from(lines: Seq<Seq<char>>, key: Seq<char>, i: int) -> int
    decreases lines.len() - i,
{
    if 0 <= i < lines.len() {
        if assigns_key_commented(lines[i], key) {
            i
        } else {
            commented_index_from(lines, key, i + 1)
        }
    } else {
        lines.len() as int
    }
}

/// First pass of setting: the first line assigning `key` becomes
/// `key=value`, later ones become empty, the others stay.
pub open spec fn replace_assignments(lines: Seq<Seq<char>>, key: Seq<char>, value: Seq<char>) -> Seq<
    Seq<char>,
> {
    Seq::new(
        lines.len(),
        |j: int|
            if assigns_key(lines[j], key) {
                if assigned_before(lines, key, j) {
                    Seq::<char>::empty()
                } else {
                    kv_line(key, value)
                }
            } else {
                lines[j]
            },
    )
}

/// The lines of a block after setting `key` to `value`: assignments are
/// replaced; failing that, the first commented-out assignment becomes
/// `key=value`; failing that, `key=value` is appended.
pub open spec fn set_in_lines(lines: Seq<Seq<char>>, key: Seq<char>, value: Seq<char>) -> Seq<
    Seq<char>,
> {
    if assigned_before(lines, key, lines.len() as int) {
        replace_assignments(lines, key, value)
    } else {
        let j = commented_index_from(lines, key, 0);
        if j < lines.len() {
            lines.update(j, kv_line(key, value))
        } else {
            lines.push(kv_line(key, value))
        }
    }
}

/// The blocks after setting `key` to `value` in the first block named
/// `block`, or after appending a block `block` holding `key=value`.
pub open spec fn set_value(bs: Seq<BlockView>, block: Seq<char>, key: Seq<char>, value: Seq<char>) -> Seq<
    BlockView,
> {
    let i = block_index(bs, block);
    if i < bs.len() {
        bs.update(i, BlockView { name: bs[i].name, lines: set_in_lines(bs[i].lines, key, value) })
    } else {
        bs.push(BlockView { name: block, lines: seq![kv_line(key, value)] })
    }
}

/// The lines of a block with every assignment of `key` commented out.
pub open spec fn comment_out(lines: Seq<Seq<char>>, key: Seq<char>) -> Seq<Seq<char>> {
    Seq::new(
        lines.len(),
        |j: int|
            if assigns_key(lines[j], key) {
                seq!['#'] + lines[j]
            } else {
                lines[j]
            },
    )
}

/// The blocks after commenting out `key` in the first block named `block`.
pub open spec fn remove_value(bs: Seq<BlockView>, block: Seq<char>, key: Seq<char>) -> Seq<
    BlockView,
> {
    let i = block_index(bs, block);
    if i < bs.len() {
        bs.update(i, BlockView { name: bs[i].name, lines: comment_out(bs[i].lines, key) })
    } else {
        bs
    }
}


// ---------------------------------------------------------------------------
// Executable representation
// ---------------------------------------------------------------------------

/// A named block of an option file: the lines after a `[name]` header.
#[derive(Debug)]
pub struct MycnfBlock {
    name: String,
    lines: Vec<String>,
}

impl DeepView for MycnfBlock {
    type V = BlockView;

    closed spec fn deep_view(&self) -> BlockView {
        BlockView { name: self.name@, lines: self.lines.deep_view() }
    }
}

/// An option file: the lines before the first block, then its blocks.
#[derive(Debug)]
pub struct MyCnfFile {
    pre_lines: Vec<String>,
    blocks: Vec<MycnfBlock>,
}

impl View for MyCnfFile {
    type V = CnfView;

    closed spec fn view(&self) -> CnfView {
        CnfView { pre_lines: self.pre_lines.deep_view(), blocks: self.blocks.deep_view() }
    }
}

impl MycnfBlock {
    pub fn new(name: String, lines: Vec<String>) -> (r: MycnfBlock)
        ensures
            r.deep_view() == (BlockView { name: name@, lines: lines.deep_view() }),
    {
        MycnfBlock { name, lines }
    }

    pub fn name(&self) -> (r: &String)
        ensures
            r@ == self.deep_view().name,
    {
        &self.name
    }

    pub fn lines(&self) -> (r: &Vec<String>)
        ensures
            r.deep_view() == self.deep_view().lines,
    {
        &self.lines
    }
}

/// The reader state that the executable reader holds.
pub open spec fn state_view(
    pre: Seq<Seq<char>>,
    blocks: Seq<BlockView>,
    cur: Option<Seq<char>>,
    cur_lines: Seq<Seq<char>>,
) -> ParseState {
    ParseState {
        pre_lines: pre,
        blocks,
        current: match cur {
            Some(n) => Some(BlockView { name: n, lines: cur_lines }),
            None => None,
        },
    }
}

/// The block name declared by a trimmed line, if it is a header line.
pub fn header_name_of(t: &str) -> (r: Option<String>)
    ensures
        match r {
            Some(n) => header_name(t@) == Some(n@),
            None => header_name(t@) is None,
        },
{
    let n = t.unicode_len();
    if n < 2 || t.get_char(0) != '[' || t.get_char(n - 1) != ']' {
        return None;
    }
    if n == 2 {
        return None;
    }
    let inner = t.substring_char(1, n - 1);
    let m = inner.unicode_len();
    let mut i: usize = 0;
    while i < m
        invariant
            m == inner@.len(),
            inner@ == t@.subrange(1, t@.len() - 1),
            t@.len() >= 2,
            i <= m,
            forall|k: int| 0 <= k < i ==> inner@[k] != '[' && inner@[k] != ']',
        decreases m - i,
    {
        let c = inner.get_char(i);
        if c == '[' || c == ']' {
            assert(!valid_block_name(inner@)) by {
                assert(inner@[i as int] == c);
            }
            return None;
        }
        i = i + 1;
    }
    Some(String::from_str(inner))
}

/// Reads option-file lines into the leading lines and the blocks.
pub fn read_blocks(lines: &Vec<String>) -> (r: (Vec<String>, Vec<MycnfBlock>))
    ensures
        (CnfView { pre_lines: r.0.deep_view(), blocks: r.1.deep_view() }) == parse_cnf(
            lines.deep_view(),
        ),
{
    let mut pre: Vec<String> = Vec::new();
    let mut blocks: Vec<MycnfBlock> = Vec::new();
    let mut block_lines: Vec<String> = Vec::new();
    let mut cur: Option<String> = None;
    let ghost all = lines.deep_view();
    let mut idx: usize = 0;
    while idx < lines.len()
        invariant
            all == lines.deep_view(),
            idx <= lines.len(),
            cur is None ==> block_lines@.len() == 0,
            state_view(
                pre.deep_view(),
                blocks.deep_view(),
                match cur {
                    Some(n) => Some(n@),
                    None => None,
                },
                block_lines.deep_view(),
            ) == parse_from(parse_start(), all.take(idx as int)),
        decreases lines.len() - idx,
    {
        let ghost before = all.take(idx as int);
        assert(all.take(idx + 1).drop_last() =~= before);
        let t = text::trim_str(lines[idx].as_str());
        assert(all.take(idx + 1).last() == lines[idx as int]@);
        match header_name_of(t.as_str()) {
            Some(n) => {
                match cur {
                    Some(bn) => {
                        let ghost old_blocks = blocks.deep_view();
                        let blk = MycnfBlock { name: bn, lines: block_lines };
                        blocks.push(blk);
                        assert(blocks.deep_view() =~= old_blocks.push(blk.deep_view()));
                        block_lines = Vec::new();
                    },
                    None => {},
                }
                cur = Some(n);
                assert(block_lines.deep_view() =~= Seq::<Seq<char>>::empty());
            },
            None => {
                if cur.is_some() {
                    let ghost old_lines = block_lines.deep_view();
                    block_lines.push(t);
                    assert(block_lines.deep_view() =~= old_lines.push(t@));
                } else {
                    let ghost old_pre = pre.deep_view();
                    pre.push(t);
                    assert(pre.deep_view() =~= old_pre.push(t@));
                }
            },
        }
        idx = idx + 1;
    }
    assert(all.take(lines.len() as int) =~= all);
    match cur {
        Some(bn) => {
            let n = blocks.len();
            let same = n > 0 && blocks[n - 1].name == bn;
            if !same {
                let ghost old_blocks = blocks.deep_view();
                let blk = MycnfBlock { name: bn, lines: block_lines };
                blocks.push(blk);
                assert(blocks.deep_view() =~= old_blocks.push(blk.deep_view()));
            } else {
                assert(blocks.deep_view().last() == blocks[n - 1].deep_view());
            }
        },
        None => {},
    }
    (pre, blocks)
}


/// The pair returned by a lookup, as sequences.
pub open spec fn pair_view(r: Option<(String, String)>) -> Option<(Seq<char>, Seq<char>)> {
    match r {
        Some(p) => Some((p.0@, p.1@)),
        None => None,
    }
}

/// What one line yields when looking `key` up.
pub fn config_pair_of(line: &str, key: &str) -> (r: Option<(String, String)>)
    ensures
        pair_view(r) == config_pair(line@, key@),
{
    if text::starts_with_ch(line, '#') {
        return None;
    }
    let n = line.unicode_len();
    let k = text::find_char_from(line, '=', 0);
    proof {
        text::lemma_find_from(line@, '=', 0);
    }
    if k < n {
        let left = text::trim_str(line.substring_char(0, k));
        if text::eq_str(left.as_str(), key) {
            let right = text::trim_str(line.substring_char(k + 1, n));
            return Some((left, right));
        }
    }
    None
}

/// Whether a line assigns `key` (see `assigns_key`).
pub fn assigns_key_of(line: &str, key: &str) -> (r: bool)
    ensures
        r == assigns_key(line@, key@),
{
    let t = text::trim_str(line);
    let n = t.unicode_len();
    let k = text::find_char_from(t.as_str(), '=', 0);
    proof {
        text::lemma_find_from(t@, '=', 0);
    }
    if k < n {
        let left = text::trim_str(t.as_str().substring_char(0, k));
        text::eq_str(left.as_str(), key)
    } else {
        false
    }
}

/// Index of the first block named `name` (`blocks.len()` if none).
pub fn block_index_of(blocks: &Vec<MycnfBlock>, name: &str) -> (r: usize)
    ensures
        r == block_index(blocks.deep_view(), name@),
{
    let ghost bs = blocks.deep_view();
    let mut i: usize = 0;
    while i < blocks.len()
        invariant
            bs == blocks.deep_view(),
            i <= blocks.len(),
            block_index_from(bs, name@, 0) == block_index_from(bs, name@, i as int),
        decreases blocks.len() - i,
    {
        if text::eq_str(blocks[i].name.as_str(), name) {
            return i;
        }
        i = i + 1;
    }
    i
}

/// The first pair that the lines yield for `key`.
fn first_pair_of(lines: &Vec<String>, key: &str) -> (r: Option<(String, String)>)
    ensures
        pair_view(r) == first_pair_from(lines.deep_view(), key@, 0),
{
    let ghost ls = lines.deep_view();
    let mut i: usize = 0;
    while i < lines.len()
        invariant
            ls == lines.deep_view(),
            i <= lines.len(),
            first_pair_from(ls, key@, 0) == first_pair_from(ls, key@, i as int),
        decreases lines.len() - i,
    {
        let p = config_pair_of(lines[i].as_str(), key);
        if p.is_some() {
            return p;
        }
        i = i + 1;
    }
    None
}

/// Looks `key` up in the first block named `block_name`.
pub fn lookup_in(blocks: &Vec<MycnfBlock>, block_name: &str, key_name: &str) -> (r: Option<
    (String, String),
>)
    ensures
        pair_view(r) == lookup(blocks.deep_view(), block_name@, key_name@),
{
    let i = block_index_of(blocks, block_name);
    if i < blocks.len() {
        first_pair_of(&blocks[i].lines, key_name)
    } else {
        None
    }
}


/// The line `key=value`.
pub fn kv_line_of(key: &str, value: &str) -> (r: String)
    ensures
        r@ == kv_line(key@, value@),
{
    let mut r = String::from_str(key);
    proof {
        reveal_strlit("=");
    }
    r.append("=");
    r.append(value);
    r
}

/// Whether a line assigns `key` once its leading `#`s are removed.
pub fn assigns_key_commented_of(line: &str, key: &str) -> (r: bool)
    ensures
        r == assigns_key_commented(line@, key@),
{
    let s = text::strip_leading_char(line, '#');
    assigns_key_of(s.as_str(), key)
}

/// The lines of a block after setting `key` to `value` (see `set_in_lines`).
pub fn set_in_lines_of(lines: &Vec<String>, key: &str, value: &str) -> (r: Vec<String>)
    ensures
        r.deep_view() == set_in_lines(lines.deep_view(), key@, value@),
{
    let ghost ls = lines.deep_view();
    let ghost replaced = replace_assignments(ls, key@, value@);
    let kv = kv_line_of(key, value);
    let mut out: Vec<String> = Vec::new();
    let mut done = false;
    let mut j: usize = 0;
    while j < lines.len()
        invariant
            ls == lines.deep_view(),
            replaced == replace_assignments(ls, key@, value@),
            kv@ == kv_line(key@, value@),
            j <= lines.len(),
            done == assigned_before(ls, key@, j as int),
            out.deep_view() =~= replaced.take(j as int),
        decreases lines.len() - j,
    {
        let ghost old_out = out.deep_view();
        if assigns_key_of(lines[j].as_str(), key) {
            assert(assigns_key(ls[j as int], key@));
            if done {
                out.push(String::new());
            } else {
                out.push(kv.clone());
                done = true;
            }
        } else {
            out.push(lines[j].clone());
            assert forall|k: int| 0 <= k < j + 1 && #[trigger] assigns_key(ls[k], key@) implies k
                < j by {}
        }
        assert(out.deep_view() =~= old_out.push(replaced[j as int]));
        j = j + 1;
    }
    if done {
        assert(replaced.take(lines.len() as int) =~= replaced);
        return out;
    }
    assert(out.deep_view() =~= ls);
    let mut i: usize = 0;
    while i < lines.len()
        invariant
            ls == lines.deep_view(),
            out.deep_view() == ls,
            kv@ == kv_line(key@, value@),
            !assigned_before(ls, key@, ls.len() as int),
            i <= lines.len(),
            commented_index_from(ls, key@, 0) == commented_index_from(ls, key@, i as int),
        decreases lines.len() - i,
    {
        if assigns_key_commented_of(lines[i].as_str(), key) {
            let ghost old_out = out.deep_view();
            out.set(i, kv);
            assert(out.deep_view() =~= old_out.update(i as int, kv_line(key@, value@)));
            return out;
        }
        i = i + 1;
    }
    let ghost old_out = out.deep_view();
    out.push(kv);
    assert(out.deep_view() =~= old_out.push(kv_line(key@, value@)));
    out
}

/// The lines of a block with every assignment of `key` commented out.
pub fn comment_out_of(lines: &Vec<String>, key: &str) -> (r: Vec<String>)
    ensures
        r.deep_view() == comment_out(lines.deep_view(), key@),
{
    let ghost ls = lines.deep_view();
    let ghost target = comment_out(ls, key@);
    let mut out: Vec<String> = Vec::new();
    let mut j: usize = 0;
    while j < lines.len()
        invariant
            ls == lines.deep_view(),
            target == comment_out(ls, key@),
            j <= lines.len(),
            out.deep_view() =~= target.take(j as int),
        decreases lines.len() - j,
    {
        let ghost old_out = out.deep_view();
        assert(ls[j as int] == lines@[j as int]@);
        if assigns_key_of(lines[j].as_str(), key) {
            proof {
                reveal_strlit("#");
                assert("#"@ =~= seq!['#']);
            }
            let mut h = String::from_str("#");
            h.append(lines[j].as_str());
            out.push(h);
        } else {
            out.push(lines[j].clone());
        }
        assert(out.deep_view() =~= old_out.push(target[j as int]));
        j = j + 1;
    }
    assert(target.take(lines.len() as int) =~= target);
    out
}

impl MyCnfFile {
    /// Reads option-file lines (as `BufRead::lines` yields them).
    pub fn from_lines(lines: &Vec<String>) -> (r: MyCnfFile)
        ensures
            r@ == parse_cnf(lines.deep_view()),
    {
        let (pre_lines, blocks) = read_blocks(lines);
        MyCnfFile { pre_lines, blocks }
    }

    /// The lines to write for this file, each to be followed by a newline.
    pub fn to_lines(&self) -> (r: Vec<String>)
        ensures
            r.deep_view() == render(self@),
    {
        let ghost bs = self.blocks.deep_view();
        let mut out: Vec<String> = self.pre_lines.clone();
        proof {
            assert(out.deep_view() =~= self.pre_lines.deep_view());
            assert(bs.take(0) =~= Seq::<BlockView>::empty());
        }
        let mut i: usize = 0;
        while i < self.blocks.len()
            invariant
                bs == self.blocks.deep_view(),
                i <= self.blocks.len(),
                out.deep_view() =~= self.pre_lines.deep_view() + blocks_lines(bs.take(i as int)),
            decreases self.blocks.len() - i,
        {
            let ghost old_out = out.deep_view();
            let b = &self.blocks[i];
            proof {
                reveal_strlit("[");
                reveal_strlit("]");
                assert("["@ =~= seq!['[']);
                assert("]"@ =~= seq![']']);
            }
            let mut h = String::from_str("[");
            h.append(b.name.as_str());
            h.append("]");
            out.push(h);
            let ghost mid = out.deep_view();
            let mut k: usize = 0;
            while k < b.lines.len()
                invariant
                    k <= b.lines.len(),
                    out.deep_view() =~= mid + b.lines.deep_view().take(k as int),
                decreases b.lines.len() - k,
            {
                let ghost o = out.deep_view();
                out.push(b.lines[k].clone());
                assert(out.deep_view() =~= o.push(b.lines[k as int]@));
                k = k + 1;
            }
            proof {
                assert(b.lines.deep_view().take(b.lines.len() as int) =~= b.lines.deep_view());
                assert(bs.take(i + 1).drop_last() =~= bs.take(i as int));
                assert(bs.take(i + 1).last() == b.deep_view());
                assert(mid =~= old_out.push(header_line(b.deep_view().name)));
            }
            i = i + 1;
        }
        proof {
            assert(bs.take(self.blocks.len() as int) =~= bs);
        }
        out
    }

    /// Looks `key_name` up in the first block named `block_name`: the first
    /// line there that does not start with `#` and whose part before the
    /// first `=`, trimmed, is `key_name` gives that part and the trimmed rest.
    pub fn get_config(&self, block_name: &str, key_name: &str) -> (r: Option<(String, String)>)
        ensures
            pair_view(r) == lookup(self@.blocks, block_name@, key_name@),
    {
        lookup_in(&self.blocks, block_name, key_name)
    }

    /// Comments out (prefixes with `#`) every line of the first block named
    /// `block_name` that assigns `key_name`.
    pub fn remove_block_key_value(&mut self, block_name: &str, key_name: &str)
        ensures
            final(self)@ == (CnfView {
                pre_lines: old(self)@.pre_lines,
                blocks: remove_value(old(self)@.blocks, block_name@, key_name@),
            }),
    {
        let i = block_index_of(&self.blocks, block_name);
        if i < self.blocks.len() {
            let ghost old_bs = self.blocks.deep_view();
            let lines = comment_out_of(&self.blocks[i].lines, key_name);
            let name = self.blocks[i].name.clone();
            let blk = MycnfBlock { name, lines };
            self.blocks.set(i, blk);
            assert(self.blocks.deep_view() =~= old_bs.update(i as int, blk.deep_view()));
        }
    }

    /// Sets `key_name` to `value` in the first block named `block_name`
    /// (see `set_in_lines`), or appends a block `block_name` holding
    /// `key_name=value`.
    pub fn set_block_key_value(&mut self, block_name: &str, key_name: &str, value: &str)
        ensures
            final(self)@ == (CnfView {
                pre_lines: old(self)@.pre_lines,
                blocks: set_value(old(self)@.blocks, block_name@, key_name@, value@),
            }),
    {
        let ghost old_bs = self.blocks.deep_view();
        let i = block_index_of(&self.blocks, block_name);
        if i < self.blocks.len() {
            let lines = set_in_lines_of(&self.blocks[i].lines, key_name, value);
            let name = self.blocks[i].name.clone();
            let blk = MycnfBlock { name, lines };
            self.blocks.set(i, blk);
            assert(self.blocks.deep_view() =~= old_bs.update(i as int, blk.deep_view()));
        } else {
            let kv = kv_line_of(key_name, value);
            let blk = MycnfBlock { name: String::from_str(block_name), lines: vec![kv] };
            assert(blk.lines.deep_view() =~= seq![kv_line(key_name@, value@)]);
            self.blocks.push(blk);
            assert(self.blocks.deep_view() =~= old_bs.push(blk.deep_view()));
        }
    }

    /// The lines before the first block.
    pub fn pre_lines(&self) -> (r: &Vec<String>)
        ensures
            r.deep_view() == self@.pre_lines,
    {
        &self.pre_lines
    }

    /// The blocks, in file order.
    pub fn blocks(&self) -> (r: &Vec<MycnfBlock>)
        ensures
            r.deep_view() == self@.blocks,
    {
        &self.blocks
    }
}


// ---------------------------------------------------------------------------
// Laws
// ---------------------------------------------------------------------------

proof fn lemma_block_index_from(bs: Seq<BlockView>, name: Seq<char>, i: int)
    requires
        0 <= i <= bs.len(),
    ensures
        i <= block_index_from(bs, name, i) <= bs.len(),
        forall|k: int| i <= k < block_index_from(bs, name, i) ==> #[trigger] bs[k].name != name,
        block_index_from(bs, name, i) < bs.len() ==> bs[block_index_from(bs, name, i)].name
            == name,
    decreases bs.len() - i,
{
    if i < bs.len() && bs[i].name != name {
        lemma_block_index_from(bs, name, i + 1);
    }
}

/// The block index depends on the block names only.
proof fn lemma_block_index_same_names(bs: Seq<BlockView>, cs: Seq<BlockView>, name: Seq<char>, i: int)
    requires
        bs.len() == cs.len(),
        forall|k: int| 0 <= k < bs.len() ==> #[trigger] bs[k].name == cs[k].name,
        0 <= i <= bs.len(),
    ensures
        block_index_from(bs, name, i) == block_index_from(cs, name, i),
    decreases bs.len() - i,
{
    if i < bs.len() {
        lemma_block_index_same_names(bs, cs, name, i + 1);
    }
}

/// A block appended after the others is found when no earlier one has its name.
proof fn lemma_block_index_push(bs: Seq<BlockView>, b: BlockView, i: int)
    requires
        0 <= i <= bs.len(),
        block_index_from(bs, b.name, i) == bs.len(),
    ensures
        block_index_from(bs.push(b), b.name, i) == bs.len(),
    decreases bs.len() - i,
{
    if i < bs.len() {
        assert(bs.push(b)[i] == bs[i]);
        lemma_block_index_push(bs, b, i + 1);
    }
}

proof fn lemma_first_pair_at(lines: Seq<Seq<char>>, key: Seq<char>, i: int, j: int)
    requires
        0 <= i <= j < lines.len(),
        forall|k: int| i <= k < j ==> (#[trigger] config_pair(lines[k], key)) is None,
        config_pair(lines[j], key) is Some,
    ensures
        first_pair_from(lines, key, i) == config_pair(lines[j], key),
    decreases j - i,
{
    if i < j {
        lemma_first_pair_at(lines, key, i + 1, j);
    }
}

proof fn lemma_first_pair_none(lines: Seq<Seq<char>>, key: Seq<char>, i: int)
    requires
        0 <= i <= lines.len(),
        forall|k: int| i <= k < lines.len() ==> (#[trigger] config_pair(lines[k], key)) is None,
    ensures
        first_pair_from(lines, key, i) is None,
    decreases lines.len() - i,
{
    if i < lines.len() {
        lemma_first_pair_none(lines, key, i + 1);
    }
}

/// A line that yields a pair for `key` also assigns `key`: looking a key up
/// and setting or commenting it out agree on which lines hold it.
pub proof fn lemma_pair_implies_assigns(line: Seq<char>, key: Seq<char>)
    requires
        config_pair(line, key) is Some,
    ensures
        assigns_key(line, key),
{
    let k = text::find(line, '=');
    text::lemma_find_from(line, '=', 0);
    let (a, b) = text::lemma_trim_indices(line);
    assert(!text::is_ws('='));
    if k < a {
        assert(text::is_ws(line[k]));
    }
    if k >= b {
        assert(text::is_ws(line[k]));
    }
    let t = line.subrange(a, b);
    assert forall|m: int| 0 <= m < k - a implies #[trigger] t[m] != '=' by {
        assert(t[m] == line[a + m]);
    }
    assert(t[k - a] == line[k]);
    text::lemma_find_from_unique(t, '=', 0, k - a);
    let pre = line.subrange(0, k);
    assert forall|m: int| 0 <= m < a implies text::is_ws(#[trigger] pre[m]) by {
        assert(pre[m] == line[m]);
    }
    text::lemma_trim_drop_ws_prefix(pre, a);
    assert(pre.subrange(a, k) =~= t.subrange(0, k - a));
}

/// The line `key=value` yields `key` and the trimmed `value` when `key` is
/// trimmed, holds no `=` and does not start with `#`.
pub proof fn lemma_kv_line_pair(key: Seq<char>, value: Seq<char>)
    requires
        text::trim(key) == key,
        !key.contains('='),
        !text::starts_with_char(key, '#'),
    ensures
        config_pair(kv_line(key, value), key) == Some((key, text::trim(value))),
{
    let line = kv_line(key, value);
    let n = key.len() as int;
    assert forall|m: int| 0 <= m < n implies #[trigger] line[m] != '=' by {
        assert(line[m] == key[m]);
        if key[m] == '=' {
            assert(key.contains('='));
        }
    }
    assert(line[n] == '=');
    text::lemma_find_from_unique(line, '=', 0, n);
    assert(line.subrange(0, n) =~= key);
    assert(line.subrange(n + 1, line.len() as int) =~= value);
    if n > 0 {
        assert(line[0] == key[0]);
    }
}

/// After `set_block_key_value(block, key, value)`, `get_config(block, key)`
/// gives `key` and the trimmed `value`, for a trimmed key that holds no `=`
/// and does not start with `#`.
pub proof fn lemma_lookup_after_set(bs: Seq<BlockView>, block: Seq<char>, key: Seq<char>, value: Seq<char>)
    requires
        text::trim(key) == key,
        !key.contains('='),
        !text::starts_with_char(key, '#'),
    ensures
        lookup(set_value(bs, block, key, value), block, key) == Some((key, text::trim(value))),
{
    let kv = kv_line(key, value);
    lemma_kv_line_pair(key, value);
    let i = block_index(bs, block);
    lemma_block_index_from(bs, block, 0);
    let nbs = set_value(bs, block, key, value);
    if i < bs.len() {
        lemma_block_index_same_names(bs, nbs, block, 0);
        let lines = bs[i].lines;
        let nl = set_in_lines(lines, key, value);
        assert(nbs[i].lines == nl);
        if assigned_before(lines, key, lines.len() as int) {
            let j0 = choose|k: int| 0 <= k < lines.len() && #[trigger] assigns_key(lines[k], key);
            // the first assignment
            let j = first_assignment(lines, key, j0);
            assert(nl[j] == kv);
            assert forall|k: int| 0 <= k < j implies (#[trigger] config_pair(nl[k], key)) is None by {
                assert(nl[k] == lines[k]);
                if config_pair(lines[k], key) is Some {
                    lemma_pair_implies_assigns(lines[k], key);
                }
            }
            lemma_first_pair_at(nl, key, 0, j);
        } else {
            let j = commented_index_from(lines, key, 0);
            assert forall|k: int| 0 <= k < lines.len() implies !#[trigger] assigns_key(lines[k], key) by {
            }
            if j < lines.len() {
                lemma_commented_index(lines, key, 0);
                assert(nl[j] == kv);
                assert forall|k: int| 0 <= k < j implies (#[trigger] config_pair(nl[k], key)) is None by {
                    assert(nl[k] == lines[k]);
                    if config_pair(lines[k], key) is Some {
                        lemma_pair_implies_assigns(lines[k], key);
                    }
                }
                lemma_first_pair_at(nl, key, 0, j);
            } else {
                let n = lines.len() as int;
                assert(nl[n] == kv);
                assert forall|k: int| 0 <= k < n implies (#[trigger] config_pair(nl[k], key)) is None by {
                    assert(nl[k] == lines[k]);
                    if config_pair(lines[k], key) is Some {
                        lemma_pair_implies_assigns(lines[k], key);
                    }
                }
                lemma_first_pair_at(nl, key, 0, n);
            }
        }
    } else {
        let b = BlockView { name: block, lines: seq![kv] };
        lemma_block_index_push(bs, b, 0);
        assert(nbs[bs.len() as int] == b);
        lemma_first_pair_at(b.lines, key, 0, 0);
    }
}

proof fn lemma_commented_index(lines: Seq<Seq<char>>, key: Seq<char>, i: int)
    requires
        0 <= i <= lines.len(),
    ensures
        i <= commented_index_from(lines, key, i) <= lines.len(),
    decreases lines.len() - i,
{
    if i < lines.len() && !assigns_key_commented(lines[i], key) {
        lemma_commented_index(lines, key, i + 1);
    }
}

/// The first line assigning `key`, given some line `j` that does.
proof fn first_assignment(lines: Seq<Seq<char>>, key: Seq<char>, j: int) -> (f: int)
    requires
        0 <= j < lines.len(),
        assigns_key(lines[j], key),
    ensures
        0 <= f <= j,
        assigns_key(lines[f], key),
        !assigned_before(lines, key, f),
    decreases j,
{
    if assigned_before(lines, key, j) {
        let k = choose|k: int| 0 <= k < j && #[trigger] assigns_key(lines[k], key);
        first_assignment(lines, key, k)
    } else {
        j
    }
}

/// After `remove_block_key_value(block, key)`, `get_config(block, key)` gives
/// nothing.
pub proof fn lemma_lookup_after_remove(bs: Seq<BlockView>, block: Seq<char>, key: Seq<char>)
    ensures
        lookup(remove_value(bs, block, key), block, key) is None,
{
    let i = block_index(bs, block);
    lemma_block_index_from(bs, block, 0);
    let nbs = remove_value(bs, block, key);
    if i < bs.len() {
        lemma_block_index_same_names(bs, nbs, block, 0);
        let lines = bs[i].lines;
        let nl = comment_out(lines, key);
        assert(nbs[i].lines == nl);
        assert forall|k: int| 0 <= k < nl.len() implies (#[trigger] config_pair(nl[k], key)) is None by {
            if assigns_key(lines[k], key) {
                assert(nl[k][0] == '#');
            } else if config_pair(lines[k], key) is Some {
                lemma_pair_implies_assigns(lines[k], key);
            }
        }
        lemma_first_pair_none(nl, key, 0);
    }
}


/// A line that assigns `key`, once prefixed with `#`, no longer assigns
/// `key`: its trimmed part before the first `=` is longer than `key`.
pub proof fn lemma_commented_assignment(l: Seq<char>, key: Seq<char>)
    requires
        assigns_key(l, key),
    ensures
        !assigns_key(seq!['#'] + l, key),
{
    let m = seq!['#'] + l;
    let (a, b) = text::lemma_trim_indices(l);
    let t = l.subrange(a, b);
    let kk = text::find(t, '=');
    text::lemma_find_from(t, '=', 0);
    assert(!text::is_ws('#'));
    assert(!text::is_ws('='));
    assert(m[0] == '#');
    assert(m[b] == l[b - 1]);
    assert forall|j: int| 1 + b <= j < m.len() implies text::is_ws(#[trigger] m[j]) by {
        assert(m[j] == l[j - 1]);
    }
    text::lemma_trim_bounds(m, 0, 1 + b);
    let tm = m.subrange(0, 1 + b);
    let e = 1 + a + kk;
    assert forall|j: int| 0 <= j < e implies #[trigger] tm[j] != '=' by {
        if j >= 1 {
            assert(tm[j] == l[j - 1]);
            if j - 1 < a {
                assert(text::is_ws(l[j - 1]));
            } else {
                assert(l[j - 1] == t[j - 1 - a]);
            }
        }
    }
    assert(tm[e] == t[kk]);
    text::lemma_find_from_unique(tm, '=', 0, e);
    let p = tm.subrange(0, e);
    let q = t.subrange(0, kk);
    let (c, d) = text::lemma_trim_indices(q);
    if c < d {
        if c > 0 {
            assert(text::is_ws(q[0]));
            assert(q[0] == l[a]);
        }
        assert forall|j: int| 1 + a + d <= j < p.len() implies text::is_ws(#[trigger] p[j]) by {
            assert(p[j] == q[j - 1 - a]);
        }
        assert(p[a + d] == q[d - 1]);
        text::lemma_trim_bounds(p, 0, 1 + a + d);
        assert(text::trim(p).len() == 1 + a + d);
        assert(text::trim(q).len() == d - c);
    } else {
        assert forall|j: int| 1 <= j < p.len() implies text::is_ws(#[trigger] p[j]) by {
            if j - 1 < a {
                assert(p[j] == l[j - 1]);
            } else {
                assert(p[j] == q[j - 1 - a]);
            }
        }
        text::lemma_trim_bounds(p, 0, 1);
        assert(text::trim(p).len() == 1);
        assert(text::trim(q).len() == 0);
    }
    assert(text::trim(l) == t);
    assert(text::trim(q) == key);
    assert(text::trim(m) == tm);
    assert(text::find(tm, '=') == e);
    assert(text::trim(p) != key);
}

/// Commenting `key` out of lines where it is already commented out changes
/// nothing.
proof fn lemma_comment_out_twice(lines: Seq<Seq<char>>, key: Seq<char>)
    ensures
        comment_out(comment_out(lines, key), key) == comment_out(lines, key),
{
    let c = comment_out(lines, key);
    assert forall|j: int| 0 <= j < c.len() implies !assigns_key(#[trigger] c[j], key) by {
        if assigns_key(lines[j], key) {
            lemma_commented_assignment(lines[j], key);
        }
    }
    assert(comment_out(c, key) =~= c);
}

/// A second `remove_block_key_value(block, key)` changes nothing: the lines
/// the first one prefixed with `#` no longer assign `key`.
pub proof fn lemma_remove_twice(bs: Seq<BlockView>, block: Seq<char>, key: Seq<char>)
    ensures
        remove_value(remove_value(bs, block, key), block, key) == remove_value(bs, block, key),
{
    let i = block_index(bs, block);
    lemma_block_index_from(bs, block, 0);
    let b1 = remove_value(bs, block, key);
    if i < bs.len() {
        lemma_block_index_same_names(bs, b1, block, 0);
        lemma_comment_out_twice(bs[i].lines, key);
        assert(remove_value(b1, block, key) =~= b1);
    }
}

/// A line that assigns a key not starting with `#`, once prefixed with `#`,
/// assigns it again when uncommented.
proof fn lemma_commented_assignment_revives(l: Seq<char>, key: Seq<char>)
    requires
        assigns_key(l, key),
        !text::starts_with_char(key, '#'),
    ensures
        assigns_key_commented(seq!['#'] + l, key),
{
    let m = seq!['#'] + l;
    let (a, b) = text::lemma_trim_indices(l);
    let t = l.subrange(a, b);
    let kk = text::find(t, '=');
    text::lemma_find_from(t, '=', 0);
    assert(!text::is_ws('#'));
    if l[0] == '#' {
        if a > 0 {
            assert(text::is_ws(l[0]));
        }
        assert(t[0] == '#');
        let q = t.subrange(0, kk);
        assert(q[0] == '#');
        let (c, d) = text::lemma_trim_indices(q);
        if c > 0 {
            assert(text::is_ws(q[0]));
        }
        if c == d {
            assert(text::is_ws(q[0]));
        }
        assert(key[0] == q[0]);
    }
    assert(m[1] == l[0]);
    assert(text::char_run_end(m, '#', 1) == 1);
    assert(text::char_run_end(m, '#', 0) == 1);
    assert(text::strip_leading(m, '#') =~= l);
}

/// The first commented-out assignment of `key` at or after `i` comes no
/// later than any such line `p`.
proof fn lemma_commented_index_at(lines: Seq<Seq<char>>, key: Seq<char>, i: int, p: int)
    requires
        0 <= i <= p < lines.len(),
        assigns_key_commented(lines[p], key),
    ensures
        commented_index_from(lines, key, i) <= p,
    decreases p - i,
{
    if i < p && !assigns_key_commented(lines[i], key) {
        lemma_commented_index_at(lines, key, i + 1, p);
    }
}

/// Setting a key after commenting it out revives the first commented-out
/// line in place: no line and no block is appended, and `get_config` gives
/// `key` and the trimmed `value`. Stated for a trimmed key without `=` that
/// does not start with `#`, assigned in the first block named `block`.
pub proof fn lemma_set_after_remove(
    bs: Seq<BlockView>,
    block: Seq<char>,
    key: Seq<char>,
    value: Seq<char>,
)
    requires
        text::trim(key) == key,
        !key.contains('='),
        !text::starts_with_char(key, '#'),
        block_index(bs, block) < bs.len(),
        exists|p: int|
            0 <= p < bs[block_index(bs, block)].lines.len() && #[trigger] assigns_key(
                bs[block_index(bs, block)].lines[p],
                key,
            ),
    ensures
        ({
            let s = set_value(remove_value(bs, block, key), block, key, value);
            let i = block_index(bs, block);
            &&& s.len() == bs.len()
            &&& s[i].lines.len() == bs[i].lines.len()
            &&& lookup(s, block, key) == Some((key, text::trim(value)))
        }),
{
    let i = block_index(bs, block);
    lemma_block_index_from(bs, block, 0);
    let r = remove_value(bs, block, key);
    lemma_block_index_same_names(bs, r, block, 0);
    let lines = bs[i].lines;
    let c = comment_out(lines, key);
    assert(r[i].lines == c);
    let p = choose|p: int| 0 <= p < lines.len() && #[trigger] assigns_key(lines[p], key);
    assert forall|j: int| 0 <= j < c.len() implies !assigns_key(#[trigger] c[j], key) by {
        if assigns_key(lines[j], key) {
            lemma_commented_assignment(lines[j], key);
        }
    }
    lemma_commented_assignment_revives(lines[p], key);
    assert(c[p] == seq!['#'] + lines[p]);
    lemma_commented_index_at(c, key, 0, p);
    lemma_commented_index(c, key, 0);
    assert(!assigned_before(c, key, c.len() as int));
    let j = commented_index_from(c, key, 0);
    assert(set_in_lines(c, key, value) == c.update(j, kv_line(key, value)));
    assert(block_index(r, block) == i);
    lemma_lookup_after_set(r, block, key, value);
}

/// Some block before index `j` is named `name`.
pub open spec fn named_before(bs: Seq<BlockView>, name: Seq<char>, j: int) -> bool {
    exists|k: int| 0 <= k < j && #[trigger] bs[k].name == name
}

/// Setting `key` in block `block` touches no block but the first one named
/// `block`: every block keeps its name, every other block keeps its lines,
/// and only when no block is named `block` is one block, named `block`,
/// appended after all the others.
pub proof fn lemma_set_frame(bs: Seq<BlockView>, block: Seq<char>, key: Seq<char>, value: Seq<char>)
    ensures
        ({
            let s = set_value(bs, block, key, value);
            &&& forall|j: int| 0 <= j < bs.len() ==> (#[trigger] s[j]).name == bs[j].name
            &&& forall|j: int|
                0 <= j < bs.len() && (bs[j].name != block || named_before(bs, block, j))
                    ==> #[trigger] s[j] == bs[j]
            &&& named_before(bs, block, bs.len() as int) ==> s.len() == bs.len()
            &&& !named_before(bs, block, bs.len() as int) ==> s.len() == bs.len() + 1
                && s[bs.len() as int].name == block
        }),
{
    let i = block_index(bs, block);
    lemma_block_index_from(bs, block, 0);
    let s = set_value(bs, block, key, value);
    assert forall|j: int|
        0 <= j < bs.len() && (bs[j].name != block || named_before(bs, block, j)) implies #[trigger] s[j]
        == bs[j] by {
        if j == i {
            let k = choose|k: int| 0 <= k < j && #[trigger] bs[k].name == block;
            assert(bs[k].name != block);
        }
    }
    if i < bs.len() {
        assert(bs[i].name == block);
        assert(named_before(bs, block, bs.len() as int));
    } else {
        assert(!named_before(bs, block, bs.len() as int));
    }
}

/// Commenting `key` out of block `block` touches no block but the first one
/// named `block`: the file keeps its blocks, every block its name, and every
/// other block its lines.
pub proof fn lemma_remove_frame(bs: Seq<BlockView>, block: Seq<char>, key: Seq<char>)
    ensures
        ({
            let s = remove_value(bs, block, key);
            &&& s.len() == bs.len()
            &&& forall|j: int| 0 <= j < bs.len() ==> (#[trigger] s[j]).name == bs[j].name
            &&& forall|j: int|
                0 <= j < bs.len() && (bs[j].name != block || named_before(bs, block, j))
                    ==> #[trigger] s[j] == bs[j]
        }),
{
    let i = block_index(bs, block);
    lemma_block_index_from(bs, block, 0);
    let s = remove_value(bs, block, key);
    assert forall|j: int|
        0 <= j < bs.len() && (bs[j].name != block || named_before(bs, block, j)) implies #[trigger] s[j]
        == bs[j] by {
        if j == i {
            let k = choose|k: int| 0 <= k < j && #[trigger] bs[k].name == block;
            assert(bs[k].name != block);
        }
    }
}

/// A trimmed line is a header exactly when it is `[`, a non-empty name
/// holding no `[` and no `]`, then `]`: the grammar `^\[([^\[\]]+)\]$`;
/// the name is the part between the brackets.
pub proof fn lemma_header_grammar(t: Seq<char>, n: Seq<char>)
    ensures
        header_name(t) == Some(n) <==> (t == seq!['['] + n + seq![']'] && n.len() > 0 && forall|
            i: int,
        | 0 <= i < n.len() ==> #[trigger] n[i] != '[' && n[i] != ']'),
{
    let h = seq!['['] + n + seq![']'];
    if t == h {
        assert(h.subrange(1, h.len() - 1) =~= n);
    }
    if header_name(t) == Some(n) {
        assert(t =~= h);
    }
}

/// Reading a line whose trim is a header `[n]` closes the open block and
/// opens an empty block named `n`, whatever was read before.
pub proof fn lemma_header_opens_block(st: ParseState, line: Seq<char>, n: Seq<char>)
    requires
        text::trim(line) == seq!['['] + n + seq![']'],
        n.len() > 0,
        forall|i: int| 0 <= i < n.len() ==> #[trigger] n[i] != '[' && n[i] != ']',
    ensures
        parse_step(st, line).current == Some(BlockView { name: n, lines: seq![] }),
        parse_step(st, line).pre_lines == st.pre_lines,
        parse_step(st, line).blocks == match st.current {
            Some(b) => st.blocks.push(b),
            None => st.blocks,
        },
{
    lemma_header_grammar(text::trim(line), n);
}

/// A line that reads back as itself: trimmed and not a header.
pub open spec fn content_line(l: Seq<char>) -> bool {
    text::trim(l) == l && header_name(l) is None
}

/// Every line is a content line and every block name a valid one.
pub open spec fn well_formed_blocks(bs: Seq<BlockView>) -> bool {
    forall|i: int|
        0 <= i < bs.len() ==> {
            &&& valid_block_name(#[trigger] bs[i].name)
            &&& forall|j: int| 0 <= j < bs[i].lines.len() ==> content_line(#[trigger] bs[i].lines[j])
        }
}

/// An option file that reads back as itself once written: content lines
/// only, valid block names, and a last block whose name differs from the
/// name of the block before it.
pub open spec fn roundtrip_safe(c: CnfView) -> bool {
    &&& forall|i: int| 0 <= i < c.pre_lines.len() ==> content_line(#[trigger] c.pre_lines[i])
    &&& well_formed_blocks(c.blocks)
    &&& c.blocks.len() >= 2 ==> c.blocks[c.blocks.len() - 2].name != c.blocks[c.blocks.len()
        - 1].name
}

proof fn lemma_parse_from_concat(st: ParseState, xs: Seq<Seq<char>>, ys: Seq<Seq<char>>)
    ensures
        parse_from(st, xs + ys) == parse_from(parse_from(st, xs), ys),
    decreases ys.len(),
{
    if ys.len() == 0 {
        assert(xs + ys =~= xs);
    } else {
        assert((xs + ys).drop_last() =~= xs + ys.drop_last());
        assert((xs + ys).last() == ys.last());
        lemma_parse_from_concat(st, xs, ys.drop_last());
    }
}

proof fn lemma_parse_pre_lines(st: ParseState, ls: Seq<Seq<char>>)
    requires
        st.current is None,
        forall|i: int| 0 <= i < ls.len() ==> content_line(#[trigger] ls[i]),
    ensures
        parse_from(st, ls) == (ParseState {
            pre_lines: st.pre_lines + ls,
            blocks: st.blocks,
            current: None,
        }),
    decreases ls.len(),
{
    if ls.len() == 0 {
        assert(st.pre_lines + ls =~= st.pre_lines);
    } else {
        lemma_parse_pre_lines(st, ls.drop_last());
        assert(content_line(ls[ls.len() - 1]));
        assert(st.pre_lines + ls.drop_last() + seq![ls.last()] =~= st.pre_lines + ls);
    }
}

proof fn lemma_parse_block_body(st: ParseState, b: BlockView, ls: Seq<Seq<char>>)
    requires
        st.current == Some(b),
        forall|i: int| 0 <= i < ls.len() ==> content_line(#[trigger] ls[i]),
    ensures
        parse_from(st, ls) == (ParseState {
            pre_lines: st.pre_lines,
            blocks: st.blocks,
            current: Some(BlockView { name: b.name, lines: b.lines + ls }),
        }),
    decreases ls.len(),
{
    if ls.len() == 0 {
        assert(b.lines + ls =~= b.lines);
    } else {
        lemma_parse_block_body(st, b, ls.drop_last());
        assert(content_line(ls[ls.len() - 1]));
        assert(b.lines + ls.drop_last() + seq![ls.last()] =~= b.lines + ls);
    }
}

/// A header line is trimmed and declares its name.
proof fn lemma_header_line(name: Seq<char>)
    requires
        valid_block_name(name),
    ensures
        text::trim(header_line(name)) == header_line(name),
        header_name(header_line(name)) == Some(name),
{
    let h = header_line(name);
    assert(h.len() == name.len() + 2);
    assert(h[0] == '[');
    assert(h[h.len() - 1] == ']');
    assert(!text::is_ws('['));
    assert(!text::is_ws(']'));
    text::lemma_trim_of_unpadded(h);
    assert(h.subrange(1, h.len() - 1) =~= name);
}

/// The reader state after the leading lines and the first blocks.
pub open spec fn rendered_state(pre: Seq<Seq<char>>, bs: Seq<BlockView>) -> ParseState {
    if bs.len() == 0 {
        ParseState { pre_lines: pre, blocks: seq![], current: None }
    } else {
        ParseState { pre_lines: pre, blocks: bs.drop_last(), current: Some(bs.last()) }
    }
}

proof fn lemma_parse_rendered(pre: Seq<Seq<char>>, bs: Seq<BlockView>)
    requires
        forall|i: int| 0 <= i < pre.len() ==> content_line(#[trigger] pre[i]),
        well_formed_blocks(bs),
    ensures
        parse_from(parse_start(), pre + blocks_lines(bs)) == rendered_state(pre, bs),
    decreases bs.len(),
{
    if bs.len() == 0 {
        assert(pre + blocks_lines(bs) =~= pre);
        lemma_parse_pre_lines(parse_start(), pre);
        assert(parse_start().pre_lines + pre =~= pre);
    } else {
        let init = bs.drop_last();
        let b = bs.last();
        assert(well_formed_blocks(init)) by {
            assert forall|i: int| 0 <= i < init.len() implies valid_block_name(
                #[trigger] init[i].name,
            ) && forall|j: int| 0 <= j < init[i].lines.len() ==> content_line(
                #[trigger] init[i].lines[j],
            ) by {
                assert(init[i] == bs[i]);
            }
        }
        lemma_parse_rendered(pre, init);
        assert(pre + blocks_lines(bs) =~= (pre + blocks_lines(init)) + block_lines(b));
        lemma_parse_from_concat(parse_start(), pre + blocks_lines(init), block_lines(b));
        let st0 = rendered_state(pre, init);
        assert(valid_block_name(bs[bs.len() - 1].name));
        lemma_header_line(b.name);
        let hdr = seq![header_line(b.name)];
        assert(block_lines(b) =~= hdr + b.lines);
        lemma_parse_from_concat(st0, hdr, b.lines);
        assert(hdr.drop_last() =~= Seq::<Seq<char>>::empty());
        let st1 = parse_from(st0, hdr);
        assert(parse_from(st0, hdr.drop_last()) == st0);
        assert(hdr.last() == header_line(b.name));
        assert(st1 == parse_step(st0, header_line(b.name)));
        assert(st1.current == Some(BlockView { name: b.name, lines: seq![] }));
        assert(st1.blocks =~= init) by {
            if init.len() > 0 {
                assert(init.drop_last().push(init.last()) =~= init);
            }
        }
        assert forall|i: int| 0 <= i < b.lines.len() implies content_line(#[trigger] b.lines[i]) by {
            assert(b == bs[bs.len() - 1]);
        }
        lemma_parse_block_body(st1, BlockView { name: b.name, lines: seq![] }, b.lines);
        assert(Seq::<Seq<char>>::empty() + b.lines =~= b.lines);
    }
}

/// Writing an option file out and reading it back gives the same file,
/// for every file whose lines are trimmed non-header lines, whose block
/// names are valid, and whose last two blocks have different names.
pub proof fn lemma_read_render(c: CnfView)
    requires
        roundtrip_safe(c),
    ensures
        parse_cnf(render(c)) == c,
{
    lemma_parse_rendered(c.pre_lines, c.blocks);
    if c.blocks.len() == 0 {
        assert(c.blocks =~= Seq::<BlockView>::empty());
    } else {
        let init = c.blocks.drop_last();
        if init.len() > 0 {
            assert(init.last() == c.blocks[c.blocks.len() - 2]);
        }
        assert(init.push(c.blocks.last()) =~= c.blocks);
    }
}

/// Every line that the reader keeps is trimmed and not a header, and every
/// block name it keeps is valid.
pub proof fn lemma_parse_well_formed(lines: Seq<Seq<char>>)
    ensures
        forall|i: int|
            0 <= i < parse_cnf(lines).pre_lines.len() ==> content_line(
                #[trigger] parse_cnf(lines).pre_lines[i],
            ),
        well_formed_blocks(parse_cnf(lines).blocks),
{
    lemma_parse_from_well_formed(lines);
    let st = parse_from(parse_start(), lines);
    match st.current {
        Some(b) => {
            let c = parse_cnf(lines);
            assert forall|i: int| 0 <= i < c.blocks.len() implies valid_block_name(
                #[trigger] c.blocks[i].name,
            ) && forall|j: int| 0 <= j < c.blocks[i].lines.len() ==> content_line(
                #[trigger] c.blocks[i].lines[j],
            ) by {
                if i < st.blocks.len() {
                    assert(c.blocks[i] == st.blocks[i]);
                }
            }
        },
        None => {},
    }
}

/// The reader state holds content lines and valid names only.
pub open spec fn state_well_formed(st: ParseState) -> bool {
    &&& forall|i: int| 0 <= i < st.pre_lines.len() ==> content_line(#[trigger] st.pre_lines[i])
    &&& well_formed_blocks(st.blocks)
    &&& match st.current {
        Some(b) => valid_block_name(b.name) && forall|j: int|
            0 <= j < b.lines.len() ==> content_line(#[trigger] b.lines[j]),
        None => true,
    }
}

proof fn lemma_parse_from_well_formed(lines: Seq<Seq<char>>)
    ensures
        state_well_formed(parse_from(parse_start(), lines)),
    decreases lines.len(),
{
    if lines.len() > 0 {
        lemma_parse_from_well_formed(lines.drop_last());
        let st = parse_from(parse_start(), lines.drop_last());
        let t = text::trim(lines.last());
        text::lemma_trim_idempotent(lines.last());
        let st2 = parse_step(st, lines.last());
        match header_name(t) {
            Some(n) => {
                match st.current {
                    Some(b) => {
                        assert forall|i: int| 0 <= i < st2.blocks.len() implies valid_block_name(
                            #[trigger] st2.blocks[i].name,
                        ) && forall|j: int| 0 <= j < st2.blocks[i].lines.len() ==> content_line(
                            #[trigger] st2.blocks[i].lines[j],
                        ) by {
                            if i < st.blocks.len() {
                                assert(st2.blocks[i] == st.blocks[i]);
                            }
                        }
                    },
                    None => {},
                }
            },
            None => {
                match st.current {
                    Some(b) => {
                        assert forall|j: int| 0 <= j < b.lines.push(t).len() implies content_line(
                            #[trigger] b.lines.push(t)[j],
                        ) by {
                            if j < b.lines.len() {
                                assert(b.lines.push(t)[j] == b.lines[j]);
                            }
                        }
                    },
                    None => {
                        assert forall|i: int| 0 <= i < st.pre_lines.push(t).len() implies content_line(
                            #[trigger] st.pre_lines.push(t)[i],
                        ) by {
                            if i < st.pre_lines.len() {
                                assert(st.pre_lines.push(t)[i] == st.pre_lines[i]);
                            }
                        }
                    },
                }
            },
        }
    }
}


/// The line `key=value` assigns `key`, for a trimmed key without `=`.
pub proof fn lemma_kv_line_assigns(key: Seq<char>, value: Seq<char>)
    requires
        text::trim(key) == key,
        !key.contains('='),
    ensures
        assigns_key(kv_line(key, value), key),
{
    let line = kv_line(key, value);
    let n = key.len() as int;
    assert(!text::is_ws('='));
    if n > 0 {
        text::lemma_trimmed_ends(key);
        assert(line[0] == key[0]);
    }
    assert(line[n] == '=');
    let (a, b) = text::lemma_trim_indices(line);
    if a > 0 {
        assert(text::is_ws(line[0]));
    }
    if b <= n {
        assert(text::is_ws(line[n]));
    }
    let t = line.subrange(0, b);
    assert forall|m: int| 0 <= m < n implies #[trigger] t[m] != '=' by {
        assert(t[m] == key[m]);
        if key[m] == '=' {
            assert(key.contains('='));
        }
    }
    assert(t[n] == '=');
    text::lemma_find_from_unique(t, '=', 0, n);
    assert(t.subrange(0, n) =~= key);
}

/// The empty line assigns no key.
proof fn lemma_empty_line_assigns_nothing(key: Seq<char>)
    ensures
        !assigns_key(Seq::<char>::empty(), key),
{
    let e = Seq::<char>::empty();
    text::lemma_trim_indices(e);
    assert(text::trim(e).len() == 0);
    text::lemma_find_from(text::trim(e), '=', 0);
}

/// After setting `key` to `value` in a block's lines, exactly one line of
/// the block assigns `key` (duplicated assignments are blanked out), and it
/// is `key=value`, for a trimmed key without `=`.
pub proof fn lemma_set_single_assignment(lines: Seq<Seq<char>>, key: Seq<char>, value: Seq<char>)
    requires
        text::trim(key) == key,
        !key.contains('='),
    ensures
        exists|j: int|
            0 <= j < set_in_lines(lines, key, value).len() && #[trigger] set_in_lines(
                lines,
                key,
                value,
            )[j] == kv_line(key, value) && forall|k: int|
                0 <= k < set_in_lines(lines, key, value).len() && k != j ==> !assigns_key(
                    #[trigger] set_in_lines(lines, key, value)[k],
                    key,
                ),
{
    let r = set_in_lines(lines, key, value);
    let j = lemma_set_in_lines_shape(lines, key, value);
    assert(r[j] == kv_line(key, value));
}

/// Where setting `key` puts `key=value` (the returned index), with no other
/// line assigning `key`.
proof fn lemma_set_in_lines_shape(lines: Seq<Seq<char>>, key: Seq<char>, value: Seq<char>) -> (j: int)
    requires
        text::trim(key) == key,
        !key.contains('='),
    ensures
        0 <= j < set_in_lines(lines, key, value).len(),
        set_in_lines(lines, key, value)[j] == kv_line(key, value),
        forall|k: int|
            0 <= k < set_in_lines(lines, key, value).len() && k != j ==> !assigns_key(
                #[trigger] set_in_lines(lines, key, value)[k],
                key,
            ),
        forall|k: int|
            0 <= k < set_in_lines(lines, key, value).len() && k != j ==> #[trigger] set_in_lines(
                lines,
                key,
                value,
            )[k] == if k < lines.len() && assigns_key(lines[k], key) {
                Seq::<char>::empty()
            } else {
                lines[k]
            },
        assigned_before(lines, key, lines.len() as int) ==> set_in_lines(lines, key, value).len()
            == lines.len() && assigns_key(lines[j], key),
        !assigned_before(lines, key, lines.len() as int) && commented_index_from(lines, key, 0)
            < lines.len() ==> j == commented_index_from(lines, key, 0) && set_in_lines(
            lines,
            key,
            value,
        ).len() == lines.len(),
        !assigned_before(lines, key, lines.len() as int) && commented_index_from(lines, key, 0)
            >= lines.len() ==> j == lines.len() && set_in_lines(lines, key, value).len()
            == lines.len() + 1,
{
    let r = set_in_lines(lines, key, value);
    lemma_kv_line_assigns(key, value);
    lemma_empty_line_assigns_nothing(key);
    lemma_commented_index(lines, key, 0);
    if assigned_before(lines, key, lines.len() as int) {
        let j0 = choose|k: int| 0 <= k < lines.len() && #[trigger] assigns_key(lines[k], key);
        let j = first_assignment(lines, key, j0);
        assert forall|k: int| 0 <= k < r.len() && k != j implies !assigns_key(#[trigger] r[k], key)
            && r[k] == (if k < lines.len() && assigns_key(lines[k], key) {
            Seq::<char>::empty()
        } else {
            lines[k]
        }) by {
            if assigns_key(lines[k], key) {
                if k < j {
                    assert(assigned_before(lines, key, j));
                } else {
                    assert(assigned_before(lines, key, k));
                    assert(r[k] == Seq::<char>::empty());
                }
            }
        }
        j
    } else {
        assert forall|k: int| 0 <= k < lines.len() implies !#[trigger] assigns_key(lines[k], key) by {
        }
        let j = commented_index_from(lines, key, 0);
        if j < lines.len() {
            assert forall|k: int| 0 <= k < r.len() && k != j implies !assigns_key(#[trigger] r[k], key)
                && r[k] == lines[k] by {
                assert(r[k] == lines[k]);
            }
            j
        } else {
            let n = lines.len() as int;
            assert forall|k: int| 0 <= k < r.len() && k != n implies !assigns_key(#[trigger] r[k], key)
                && r[k] == lines[k] by {
                assert(r[k] == lines[k]);
            }
            n
        }
    }
}

/// Setting `key` twice in a block's lines is setting it once to the second
/// value.
proof fn lemma_set_in_lines_twice(lines: Seq<Seq<char>>, key: Seq<char>, v1: Seq<char>, v2: Seq<char>)
    requires
        text::trim(key) == key,
        !key.contains('='),
    ensures
        set_in_lines(set_in_lines(lines, key, v1), key, v2) == set_in_lines(lines, key, v2),
{
    let l1 = set_in_lines(lines, key, v1);
    let r = set_in_lines(lines, key, v2);
    let j = lemma_set_in_lines_shape(lines, key, v1);
    let j2 = lemma_set_in_lines_shape(lines, key, v2);
    lemma_kv_line_assigns(key, v1);
    lemma_kv_line_assigns(key, v2);
    // in `l1`, line `j` is the only assignment: setting again replaces it
    assert(assigned_before(l1, key, l1.len() as int));
    assert(!assigned_before(l1, key, j));
    let l2 = set_in_lines(l1, key, v2);
    assert(l2[j] == kv_line(key, v2));
    if assigned_before(lines, key, lines.len() as int) {
        assert(!assigned_before(lines, key, j)) by {
            if assigned_before(lines, key, j) {
                let k = choose|k: int| 0 <= k < j && #[trigger] assigns_key(lines[k], key);
                assert(l1[k] == Seq::<char>::empty());
                assert(assigns_key(l1[k], key));
            }
        }
        assert(assigns_key(lines[j2], key));
        if j2 != j {
            assert(l1[j2] == Seq::<char>::empty());
            assert(!assigns_key(l1[j2], key));
            if j2 < j {
                assert(assigned_before(lines, key, j));
            } else {
                assert(r[j] == Seq::<char>::empty());
            }
        }
    }
    assert(j2 == j);
    assert(l2 =~= r);
}

/// Setting `key` twice in a block is setting it once to the second value:
/// the second `set_block_key_value` overwrites the first in place.
pub proof fn lemma_set_twice(
    bs: Seq<BlockView>,
    block: Seq<char>,
    key: Seq<char>,
    v1: Seq<char>,
    v2: Seq<char>,
)
    requires
        text::trim(key) == key,
        !key.contains('='),
    ensures
        set_value(set_value(bs, block, key, v1), block, key, v2) == set_value(bs, block, key, v2),
{
    let i = block_index(bs, block);
    lemma_block_index_from(bs, block, 0);
    let b1 = set_value(bs, block, key, v1);
    if i < bs.len() {
        lemma_block_index_same_names(bs, b1, block, 0);
        lemma_set_in_lines_twice(bs[i].lines, key, v1, v2);
        assert(set_value(b1, block, key, v2) =~= set_value(bs, block, key, v2));
    } else {
        let nb = BlockView { name: block, lines: seq![kv_line(key, v1)] };
        lemma_block_index_push(bs, nb, 0);
        lemma_set_in_lines_twice(Seq::<Seq<char>>::empty(), key, v1, v2);
        assert(Seq::<Seq<char>>::empty().push(kv_line(key, v1)) =~= seq![kv_line(key, v1)]);
        assert(Seq::<Seq<char>>::empty().push(kv_line(key, v2)) =~= seq![kv_line(key, v2)]);
        lemma_commented_index(Seq::<Seq<char>>::empty(), key, 0);
        assert(set_value(b1, block, key, v2) =~= set_value(bs, block, key, v2));
    }
}

/// Reading lines, writing the file out and reading it again gives the file
/// first read, unless its last two blocks have the same name.
pub proof fn lemma_read_render_read(lines: Seq<Seq<char>>)
    requires
        parse_cnf(lines).blocks.len() >= 2 ==> parse_cnf(lines).blocks[parse_cnf(lines).blocks.len()
            - 2].name != parse_cnf(lines).blocks[parse_cnf(lines).blocks.len() - 1].name,
    ensures
        parse_cnf(render(parse_cnf(lines))) == parse_cnf(lines),
{
    lemma_parse_well_formed(lines);
    lemma_read_render(parse_cnf(lines));
}

} // verus!
