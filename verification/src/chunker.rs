//! Semantic chunking for vector stores: headings are the first-class split
//! points, long runs are split further at block boundaries, and every chunk
//! carries the path of its ancestor headings.

use vstd::prelude::*;
use crate::ir::{Block, BlockV, Document, DocumentMetadata, MetadataV, blocks_view};
use crate::renderer::{MarkdownRenderer, render_blocks_spec, render_one};
use crate::strs::{trim, trim_string};
use crate::text::{chars_of, is_blank, is_whitespace, is_ws};

verus! {

/// Counts (or estimates) the tokens of a text.  The count is a function of the text.
pub trait TokenCounter {
    spec fn spec_count(&self, text: Seq<char>) -> nat;

    fn count(&self, text: &str) -> (n: usize)
        ensures
            n as nat == self.spec_count(text@),
    ;
}

/// Hangul, kana and CJK ideograph ranges: one token per character.
pub open spec fn is_cjk_spec(c: char) -> bool {
    let u = c as u32;
    ||| 0x1100 <= u <= 0x11FF
    ||| 0x3040 <= u <= 0x30FF
    ||| 0x3130 <= u <= 0x318F
    ||| 0x3400 <= u <= 0x4DBF
    ||| 0x4E00 <= u <= 0x9FFF
    ||| 0xAC00 <= u <= 0xD7AF
    ||| 0xF900 <= u <= 0xFAFF
}

/// A run of `run` Latin characters counts `ceil(run / 4)` tokens.
pub open spec fn latin_tokens(run: nat) -> nat {
    if run == 0 {
        0
    } else {
        ((run + 3) / 4) as nat
    }
}

/// (tokens so far, length of the pending Latin run) after reading `s`.
pub open spec fn heuristic_state(s: Seq<char>) -> (nat, nat)
    decreases s.len(),
{
    if s.len() == 0 {
        (0, 0)
    } else {
        let (t, r) = heuristic_state(s.drop_last());
        let c = s.last();
        if is_cjk_spec(c) {
            (t + latin_tokens(r) + 1, 0)
        } else if is_ws(c) {
            (t + latin_tokens(r), 0)
        } else {
            (t, r + 1)
        }
    }
}

/// CJK characters count one token each, whitespace ends a Latin run, and a
/// Latin run of `n` characters counts `ceil(n / 4)` tokens.
pub open spec fn heuristic_count(s: Seq<char>) -> nat {
    let (t, r) = heuristic_state(s);
    t + latin_tokens(r)
}

fn is_cjk(ch: char) -> (r: bool)
    ensures
        r == is_cjk_spec(ch),
{
    let u = ch as u32;
    (0x1100 <= u && u <= 0x11FF) || (0x3040 <= u && u <= 0x30FF) || (0x3130 <= u && u <= 0x318F) || (
    0x3400 <= u && u <= 0x4DBF) || (0x4E00 <= u && u <= 0x9FFF) || (0xAC00 <= u && u <= 0xD7AF) || (
    0xF900 <= u && u <= 0xFAFF)
}

fn flush_latin(run: &mut usize) -> (t: usize)
    ensures
        t as nat == latin_tokens(*old(run) as nat),
        *final(run) == 0,
        t <= *old(run),
{
    if *run == 0 {
        0
    } else {
        let r = *run;
        let q = r / 4;
        let m = r % 4;
        let t = q + if m == 0 { 0 } else { 1 };
        assert(t == (r as nat + 3) / 4) by (nonlinear_arith)
            requires
                q == r / 4,
                m == r % 4,
                t == q + if m == 0 { 0usize } else { 1usize },
        ;
        *run = 0;
        t
    }
}

/// A dependency-free multilingual token estimate: about four Latin
/// characters per token, one token per CJK character.
#[derive(Debug, Clone, Copy, Default)]
pub struct HeuristicTokenCounter;

impl TokenCounter for HeuristicTokenCounter {
    open spec fn spec_count(&self, text: Seq<char>) -> nat {
        heuristic_count(text)
    }

    fn count(&self, text: &str) -> (n: usize) {
        let cs = chars_of(text);
        let mut tokens: usize = 0;
        let mut latin_run: usize = 0;
        let mut i: usize = 0;
        while i < cs.len()
            invariant
                cs@ == text@,
                i <= cs@.len(),
                tokens + latin_run <= i,
                heuristic_state(cs@.take(i as int)) == (tokens as nat, latin_run as nat),
            decreases cs@.len() - i,
        {
            let ch = cs[i];
            assert(cs@.take(i + 1).drop_last() =~= cs@.take(i as int));
            if is_cjk(ch) {
                let t = flush_latin(&mut latin_run);
                tokens = tokens + t;
                tokens = tokens + 1;
            } else if is_whitespace(ch) {
                let t = flush_latin(&mut latin_run);
                tokens = tokens + t;
            } else {
                latin_run = latin_run + 1;
            }
            i = i + 1;
        }
        assert(cs@.take(cs@.len() as int) =~= cs@);
        let t = flush_latin(&mut latin_run);
        tokens + t
    }
}

/// A unit to load into a vector store.
#[derive(Debug)]
pub struct Chunk {
    /// The ancestor headings, outermost first.
    pub heading_path: Vec<String>,
    /// The chunk's Markdown.
    pub content: String,
    /// Tokens according to the counter used.
    pub token_count: usize,
    /// The document's metadata, copied into every chunk.
    pub metadata: DocumentMetadata,
}

pub struct ChunkV {
    pub heading_path: Seq<Seq<char>>,
    pub content: Seq<char>,
    pub token_count: nat,
    pub metadata: MetadataV,
}

impl View for Chunk {
    type V = ChunkV;

    open spec fn view(&self) -> ChunkV {
        ChunkV {
            heading_path: self.heading_path.deep_view(),
            content: self.content@,
            token_count: self.token_count as nat,
            metadata: self.metadata@,
        }
    }
}

/// Chunking settings.
#[derive(Debug, Clone)]
pub struct SemanticChunker {
    /// Most tokens per chunk (e.g. 512).
    pub max_tokens: usize,
    /// Tokens of trailing blocks repeated at the start of the next chunk after a size split.
    pub overlap_tokens: usize,
    /// Heading levels that start a new chunk (e.g. `[1, 2]`).
    pub heading_levels: Vec<u8>,
}

impl Default for SemanticChunker {
    /// 512 tokens per chunk, 64 tokens of overlap, splitting at levels 1 and 2.
    fn default() -> (r: Self)
        ensures
            r.max_tokens == 512,
            r.overlap_tokens == 64,
            r.heading_levels@ == seq![1u8, 2u8],
    {
        let mut levels: Vec<u8> = Vec::new();
        levels.push(1);
        levels.push(2);
        assert(levels@ =~= seq![1u8, 2u8]);
        SemanticChunker { max_tokens: 512, overlap_tokens: 64, heading_levels: levels }
    }
}

// ── specification ───────────────────────────────────────────────

pub struct ChunkState {
    pub chunks: Seq<ChunkV>,
    pub path: Seq<(u8, Seq<char>)>,
    pub cur: Seq<BlockV>,
    pub cur_tokens: nat,
}

pub open spec fn tokens_of<C: TokenCounter + ?Sized>(c: &C, b: BlockV) -> nat {
    c.spec_count(render_blocks_spec(seq![b]))
}

pub open spec fn sum_tokens<C: TokenCounter + ?Sized>(c: &C, s: Seq<BlockV>) -> nat
    decreases s.len(),
{
    if s.len() == 0 {
        0
    } else {
        sum_tokens(c, s.drop_last()) + tokens_of(c, s.last())
    }
}

pub open spec fn path_names(path: Seq<(u8, Seq<char>)>) -> Seq<Seq<char>> {
    path.map_values(|p: (u8, Seq<char>)| p.1)
}

/// Closes the current run into a chunk (when its trimmed Markdown is not empty).
pub open spec fn flush_spec(st: ChunkState, meta: MetadataV) -> ChunkState {
    if st.cur.len() == 0 {
        st
    } else {
        let content = trim(render_blocks_spec(st.cur));
        ChunkState {
            chunks: if content.len() > 0 {
                st.chunks.push(
                    ChunkV {
                        heading_path: path_names(st.path),
                        content,
                        token_count: st.cur_tokens,
                        metadata: meta,
                    },
                )
            } else {
                st.chunks
            },
            path: st.path,
            cur: Seq::empty(),
            cur_tokens: 0,
        }
    }
}

/// How many trailing blocks are carried into the next chunk: blocks are taken
/// from the end until their tokens reach `overlap`.
pub open spec fn carry_len<C: TokenCounter + ?Sized>(c: &C, cur: Seq<BlockV>, overlap: nat, m: nat) -> nat
    decreases cur.len() - m,
{
    if m >= cur.len() || sum_tokens(c, cur.skip(cur.len() - m)) >= overlap {
        m
    } else {
        carry_len(c, cur, overlap, m + 1)
    }
}

/// A size split: the run becomes a chunk (its token count is the counter's
/// count of the trimmed Markdown) and the carried blocks start the next run.
pub open spec fn overflow_spec<C: TokenCounter + ?Sized>(
    st: ChunkState,
    meta: MetadataV,
    c: &C,
    overlap: nat,
) -> ChunkState {
    let content = trim(render_blocks_spec(st.cur));
    let k = carry_len(c, st.cur, overlap, 0);
    let carry = st.cur.skip(st.cur.len() - k);
    ChunkState {
        chunks: if content.len() > 0 {
            st.chunks.push(
                ChunkV {
                    heading_path: path_names(st.path),
                    content,
                    token_count: c.spec_count(content),
                    metadata: meta,
                },
            )
        } else {
            st.chunks
        },
        path: st.path,
        cur: carry,
        cur_tokens: sum_tokens(c, carry),
    }
}

/// Drops the path entries at `level` or deeper.
pub open spec fn pop_path(path: Seq<(u8, Seq<char>)>, level: u8) -> Seq<(u8, Seq<char>)>
    decreases path.len(),
{
    if path.len() > 0 && path.last().0 >= level {
        pop_path(path.drop_last(), level)
    } else {
        path
    }
}

pub open spec fn step_spec<C: TokenCounter + ?Sized>(
    max: nat,
    overlap: nat,
    levels: Seq<u8>,
    c: &C,
    meta: MetadataV,
    st: ChunkState,
    b: BlockV,
) -> ChunkState {
    let st1 = match b {
        BlockV::Heading { level, text } => {
            let sf = if levels.contains(level) {
                flush_spec(st, meta)
            } else {
                st
            };
            ChunkState {
                chunks: sf.chunks,
                path: pop_path(sf.path, level).push((level, text)),
                cur: sf.cur,
                cur_tokens: sf.cur_tokens,
            }
        },
        _ => st,
    };
    let bt = tokens_of(c, b);
    let st2 = if st1.cur_tokens + bt > max && st1.cur.len() > 0 {
        overflow_spec(st1, meta, c, overlap)
    } else {
        st1
    };
    ChunkState { chunks: st2.chunks, path: st2.path, cur: st2.cur.push(b), cur_tokens: st2.cur_tokens + bt }
}

pub open spec fn init_state() -> ChunkState {
    ChunkState { chunks: Seq::empty(), path: Seq::empty(), cur: Seq::empty(), cur_tokens: 0 }
}

pub open spec fn fold_spec<C: TokenCounter + ?Sized>(
    max: nat,
    overlap: nat,
    levels: Seq<u8>,
    c: &C,
    meta: MetadataV,
    bs: Seq<BlockV>,
) -> ChunkState
    decreases bs.len(),
{
    if bs.len() == 0 {
        init_state()
    } else {
        step_spec(max, overlap, levels, c, meta, fold_spec(max, overlap, levels, c, meta, bs.drop_last()), bs.last())
    }
}

/// The chunks of a document: the blocks folded through [`step_spec`], then the
/// last run closed.
pub open spec fn chunks_spec<C: TokenCounter + ?Sized>(
    max: nat,
    overlap: nat,
    levels: Seq<u8>,
    c: &C,
    d: crate::ir::DocumentV,
) -> Seq<ChunkV> {
    flush_spec(fold_spec(max, overlap, levels, c, d.metadata, d.blocks), d.metadata).chunks
}


pub open spec fn chunks_view(s: Seq<Chunk>) -> Seq<ChunkV> {
    s.map_values(|c: Chunk| c@)
}

pub open spec fn path_view(s: Seq<(u8, String)>) -> Seq<(u8, Seq<char>)> {
    s.map_values(|p: (u8, String)| (p.0, p.1@))
}

pub open spec fn state_view(
    chunks: Seq<Chunk>,
    path: Seq<(u8, String)>,
    cur: Seq<Block>,
    cur_tokens: usize,
) -> ChunkState {
    ChunkState {
        chunks: chunks_view(chunks),
        path: path_view(path),
        cur: blocks_view(cur),
        cur_tokens: cur_tokens as nat,
    }
}

// ── sums of token counts ────────────────────────────────────────

pub proof fn lemma_sum_concat<C: TokenCounter + ?Sized>(c: &C, a: Seq<BlockV>, b: Seq<BlockV>)
    ensures
        sum_tokens(c, a + b) == sum_tokens(c, a) + sum_tokens(c, b),
    decreases b.len(),
{
    if b.len() == 0 {
        assert(a + b =~= a);
    } else {
        lemma_sum_concat(c, a, b.drop_last());
        assert((a + b).drop_last() =~= a + b.drop_last());
        assert((a + b).last() == b.last());
    }
}

pub proof fn lemma_sum_split<C: TokenCounter + ?Sized>(c: &C, s: Seq<BlockV>, k: int)
    requires
        0 <= k <= s.len(),
    ensures
        sum_tokens(c, s) == sum_tokens(c, s.take(k)) + sum_tokens(c, s.skip(k)),
        sum_tokens(c, s.skip(k)) <= sum_tokens(c, s),
        sum_tokens(c, s.take(k)) <= sum_tokens(c, s),
{
    assert(s =~= s.take(k) + s.skip(k));
    lemma_sum_concat(c, s.take(k), s.skip(k));
}

pub proof fn lemma_sum_skip_step<C: TokenCounter + ?Sized>(c: &C, s: Seq<BlockV>, k: int)
    requires
        0 < k <= s.len(),
    ensures
        sum_tokens(c, s.skip(k - 1)) == tokens_of(c, s[k - 1]) + sum_tokens(c, s.skip(k)),
{
    assert(s.skip(k - 1) =~= seq![s[k - 1]] + s.skip(k));
    lemma_sum_concat(c, seq![s[k - 1]], s.skip(k));
    let one = seq![s[k - 1]];
    assert(one.drop_last() =~= Seq::<BlockV>::empty());
    assert(one.last() == s[k - 1]);
    assert(sum_tokens(c, one) == sum_tokens(c, one.drop_last()) + tokens_of(c, one.last()));
}

// ── implementation ──────────────────────────────────────────────

fn path_names_exec(path: &Vec<(u8, String)>) -> (r: Vec<String>)
    ensures
        r.deep_view() == path_names(path_view(path@)),
{
    let mut out: Vec<String> = Vec::new();
    let mut i: usize = 0;
    while i < path.len()
        invariant
            i <= path@.len(),
            out@.len() == i,
            forall|k: int| 0 <= k < i ==> #[trigger] out@[k]@ == path@[k].1@,
        decreases path@.len() - i,
    {
        out.push(path[i].1.clone());
        i = i + 1;
    }
    assert(out.deep_view() =~= path_names(path_view(path@)));
    out
}

fn contains_level(levels: &Vec<u8>, level: u8) -> (r: bool)
    ensures
        r == levels@.contains(level),
{
    let mut i: usize = 0;
    while i < levels.len()
        invariant
            i <= levels@.len(),
            forall|k: int| 0 <= k < i ==> levels@[k] != level,
        decreases levels@.len() - i,
    {
        if levels[i] == level {
            assert(levels@[i as int] == level);
            return true;
        }
        i = i + 1;
    }
    false
}

proof fn lemma_chunks_push(s: Seq<Chunk>, c: Chunk)
    ensures
        chunks_view(s.push(c)) == chunks_view(s).push(c@),
{
    assert(chunks_view(s.push(c)) =~= chunks_view(s).push(c@));
}

fn flush(
    chunks: &mut Vec<Chunk>,
    cur: &mut Vec<Block>,
    cur_tokens: &mut usize,
    path_stack: &Vec<(u8, String)>,
    meta: &DocumentMetadata,
)
    ensures
        state_view(final(chunks)@, path_stack@, final(cur)@, *final(cur_tokens)) == flush_spec(
            state_view(old(chunks)@, path_stack@, old(cur)@, *old(cur_tokens)),
            meta@,
        ),
{
    if cur.len() == 0 {
        return;
    }
    let md = MarkdownRenderer::render_blocks(cur.as_slice());
    let content = trim_string(md.as_str());
    if !content.as_str().is_empty() {
        let c = Chunk {
            heading_path: path_names_exec(path_stack),
            content,
            token_count: *cur_tokens,
            metadata: meta.deep_copy(),
        };
        proof {
            lemma_chunks_push(chunks@, c);
        }
        chunks.push(c);
    }
    cur.clear();
    *cur_tokens = 0;
    assert(blocks_view(cur@) =~= Seq::<BlockV>::empty());
}


fn flush_with_overlap<C: TokenCounter + ?Sized>(
    overlap_tokens: usize,
    chunks: &mut Vec<Chunk>,
    cur: &mut Vec<Block>,
    path_stack: &Vec<(u8, String)>,
    meta: &DocumentMetadata,
    counter: &C,
) -> (r: (Vec<Block>, usize))
    requires
        sum_tokens(counter, blocks_view(old(cur)@)) <= usize::MAX,
    ensures
        ({
            let st = overflow_spec(
                state_view(old(chunks)@, path_stack@, old(cur)@, 0),
                meta@,
                counter,
                overlap_tokens as nat,
            );
            &&& chunks_view(final(chunks)@) == st.chunks
            &&& blocks_view(r.0@) == st.cur
            &&& r.1 as nat == st.cur_tokens
        }),
{
    let md = MarkdownRenderer::render_blocks(cur.as_slice());
    let content = trim_string(md.as_str());
    let total = counter.count(content.as_str());
    if !content.as_str().is_empty() {
        let c = Chunk {
            heading_path: path_names_exec(path_stack),
            content,
            token_count: total,
            metadata: meta.deep_copy(),
        };
        proof {
            lemma_chunks_push(chunks@, c);
        }
        chunks.push(c);
    }
    let ghost cv = blocks_view(cur@);
    let n = cur.len();
    let mut m: usize = 0;
    let mut carry_tokens: usize = 0;
    if overlap_tokens > 0 {
        while m < n && carry_tokens < overlap_tokens
            invariant
                n == cur@.len(),
                cv == blocks_view(cur@),
                cv.len() == n,
                m <= n,
                sum_tokens(counter, cv) <= usize::MAX,
                carry_tokens as nat == sum_tokens(counter, cv.skip(n - m)),
                carry_len(counter, cv, overlap_tokens as nat, m as nat) == carry_len(
                    counter,
                    cv,
                    overlap_tokens as nat,
                    0,
                ),
            decreases n - m,
        {
            proof {
                lemma_sum_skip_step(counter, cv, n - m);
                lemma_sum_split(counter, cv, n - m - 1);
            }
            let md1 = render_one(&cur[n - 1 - m]);
            let t = counter.count(md1.as_str());
            carry_tokens = carry_tokens + t;
            m = m + 1;
        }
    }
    assert(carry_len(counter, cv, overlap_tokens as nat, m as nat) == m);
    let carry = cur.split_off(n - m);
    assert(blocks_view(carry@) =~= cv.skip(n - m));
    cur.clear();
    (carry, carry_tokens)
}

proof fn lemma_carry_len_bound<C: TokenCounter + ?Sized>(c: &C, cur: Seq<BlockV>, overlap: nat, m: nat)
    requires
        m <= cur.len(),
    ensures
        m <= carry_len(c, cur, overlap, m) <= cur.len(),
    decreases cur.len() - m,
{
    if !(m >= cur.len() || sum_tokens(c, cur.skip(cur.len() - m)) >= overlap) {
        lemma_carry_len_bound(c, cur, overlap, m + 1);
    }
}

proof fn lemma_path_push(path: Seq<(u8, String)>, x: (u8, String))
    ensures
        path_view(path.push(x)) == path_view(path).push((x.0, x.1@)),
{
    assert(path_view(path.push(x)) =~= path_view(path).push((x.0, x.1@)));
}

proof fn lemma_path_pop(path: Seq<(u8, String)>)
    requires
        path.len() > 0,
    ensures
        path_view(path.drop_last()) == path_view(path).drop_last(),
{
    assert(path_view(path.drop_last()) =~= path_view(path).drop_last());
}

fn update_path(path_stack: &mut Vec<(u8, String)>, level: u8, text: &String)
    ensures
        path_view(final(path_stack)@) == pop_path(path_view(old(path_stack)@), level).push((level, text@)),
{
    while path_stack.len() > 0 && path_stack[path_stack.len() - 1].0 >= level
        invariant
            pop_path(path_view(path_stack@), level) == pop_path(path_view(old(path_stack)@), level),
        decreases path_stack@.len(),
    {
        proof {
            lemma_path_pop(path_stack@);
        }
        path_stack.pop();
    }
    proof {
        lemma_path_push(path_stack@, (level, *text));
    }
    path_stack.push((level, text.clone()));
}

impl SemanticChunker {
    /// Chunks with the default [`HeuristicTokenCounter`].
    pub fn chunk(&self, doc: &Document) -> (r: Vec<Chunk>)
        requires
            sum_tokens(&HeuristicTokenCounter, blocks_view(doc.blocks@)) <= usize::MAX,
        ensures
            chunks_view(r@) == chunks_spec(
                self.max_tokens as nat,
                self.overlap_tokens as nat,
                self.heading_levels@,
                &HeuristicTokenCounter,
                doc@,
            ),
    {
        self.chunk_with(doc, &HeuristicTokenCounter)
    }

    /// Chunks with the given token counter.
    pub fn chunk_with<C: TokenCounter + ?Sized>(&self, doc: &Document, counter: &C) -> (r: Vec<Chunk>)
        requires
            sum_tokens(counter, blocks_view(doc.blocks@)) <= usize::MAX,
        ensures
            chunks_view(r@) == chunks_spec(
                self.max_tokens as nat,
                self.overlap_tokens as nat,
                self.heading_levels@,
                counter,
                doc@,
            ),
    {
        let ghost bv = blocks_view(doc.blocks@);
        let ghost max = self.max_tokens as nat;
        let ghost ov = self.overlap_tokens as nat;
        let ghost lv = self.heading_levels@;
        let ghost meta = doc.metadata@;
        let mut chunks: Vec<Chunk> = Vec::new();
        let mut path_stack: Vec<(u8, String)> = Vec::new();
        let mut cur: Vec<Block> = Vec::new();
        let mut cur_tokens: usize = 0;
        let mut i: usize = 0;
        proof {
            assert(chunks_view(chunks@) =~= Seq::<ChunkV>::empty());
            assert(path_view(path_stack@) =~= Seq::<(u8, Seq<char>)>::empty());
            assert(blocks_view(cur@) =~= Seq::<BlockV>::empty());
            assert(state_view(chunks@, path_stack@, cur@, cur_tokens) == init_state());
            assert(bv.take(0) =~= Seq::<BlockV>::empty());
        }
        while i < doc.blocks.len()
            invariant
                bv == blocks_view(doc.blocks@),
                bv.len() == doc.blocks@.len(),
                max == self.max_tokens as nat,
                ov == self.overlap_tokens as nat,
                lv == self.heading_levels@,
                meta == doc.metadata@,
                i <= doc.blocks@.len(),
                sum_tokens(counter, bv) <= usize::MAX,
                state_view(chunks@, path_stack@, cur@, cur_tokens) == fold_spec(
                    max,
                    ov,
                    lv,
                    counter,
                    meta,
                    bv.take(i as int),
                ),
                cur_tokens as nat == sum_tokens(counter, blocks_view(cur@)),
                sum_tokens(counter, blocks_view(cur@)) <= sum_tokens(counter, bv.take(i as int)),
            decreases doc.blocks@.len() - i,
        {
            let block = &doc.blocks[i];
            let ghost st0 = state_view(chunks@, path_stack@, cur@, cur_tokens);
            proof {
                assert(bv.take(i + 1).drop_last() =~= bv.take(i as int));
                assert(bv.take(i + 1).last() == block@);
                lemma_sum_split(counter, bv, i + 1);
            }
            match block {
                Block::Heading { level, text } => {
                    if contains_level(&self.heading_levels, *level) {
                        flush(&mut chunks, &mut cur, &mut cur_tokens, &path_stack, &doc.metadata);
                    }
                    update_path(&mut path_stack, *level, text);
                },
                _ => {},
            }
            let ghost st1 = state_view(chunks@, path_stack@, cur@, cur_tokens);
            let md = render_one(block);
            let bt = counter.count(md.as_str());
            proof {
                assert(sum_tokens(counter, bv.take(i + 1)) == sum_tokens(counter, bv.take(i as int))
                    + tokens_of(counter, block@));
            }
            if cur_tokens + bt > self.max_tokens && cur.len() > 0 {
                let (carry, ct) = flush_with_overlap(
                    self.overlap_tokens,
                    &mut chunks,
                    &mut cur,
                    &path_stack,
                    &doc.metadata,
                    counter,
                );
                proof {
                    lemma_carry_len_bound(counter, st1.cur, ov, 0);
                    lemma_sum_split(counter, st1.cur, st1.cur.len() - carry_len(counter, st1.cur, ov, 0));
                }
                cur = carry;
                cur_tokens = ct;
            }
            let ghost st2 = state_view(chunks@, path_stack@, cur@, cur_tokens);
            let ghost cur_before = cur@;
            assert(cur_tokens as nat == sum_tokens(counter, blocks_view(cur@)));
            assert(sum_tokens(counter, blocks_view(cur@)) <= sum_tokens(counter, bv.take(i as int)));
            cur.push(block.deep_copy());
            cur_tokens = cur_tokens + bt;
            proof {
                assert(blocks_view(cur@) =~= blocks_view(cur_before).push(block@));
                assert(blocks_view(cur@).drop_last() =~= blocks_view(cur_before));
                assert(blocks_view(cur@).last() == block@);
                assert(sum_tokens(counter, blocks_view(cur@)) == sum_tokens(counter, blocks_view(cur_before))
                    + tokens_of(counter, block@));
            }
            i = i + 1;
        }
        assert(bv.take(doc.blocks@.len() as int) =~= bv);
        flush(&mut chunks, &mut cur, &mut cur_tokens, &path_stack, &doc.metadata);
        chunks
    }
}


// ── laws ────────────────────────────────────────────────────────

pub open spec fn chunks_well_formed(cs: Seq<ChunkV>, meta: MetadataV) -> bool {
    forall|k: int| 0 <= k < cs.len() ==> {
        &&& (#[trigger] cs[k]).content.len() > 0
        &&& cs[k].metadata == meta
    }
}

proof fn lemma_fold_well_formed<C: TokenCounter + ?Sized>(
    max: nat,
    overlap: nat,
    levels: Seq<u8>,
    c: &C,
    meta: MetadataV,
    bs: Seq<BlockV>,
)
    ensures
        chunks_well_formed(fold_spec(max, overlap, levels, c, meta, bs).chunks, meta),
    decreases bs.len(),
{
    if bs.len() > 0 {
        lemma_fold_well_formed(max, overlap, levels, c, meta, bs.drop_last());
    }
}

/// No chunk is empty, and every chunk carries the document's metadata.
pub proof fn law_chunks_nonempty_with_metadata<C: TokenCounter + ?Sized>(
    max: nat,
    overlap: nat,
    levels: Seq<u8>,
    c: &C,
    d: crate::ir::DocumentV,
)
    ensures
        chunks_well_formed(chunks_spec(max, overlap, levels, c, d), d.metadata),
{
    lemma_fold_well_formed(max, overlap, levels, c, d.metadata, d.blocks);
}

pub open spec fn levels_increasing(path: Seq<(u8, Seq<char>)>) -> bool {
    forall|a: int, b: int| 0 <= a < b < path.len() ==> (#[trigger] path[a]).0 < (#[trigger] path[b]).0
}

proof fn lemma_pop_path(path: Seq<(u8, Seq<char>)>, level: u8)
    requires
        levels_increasing(path),
    ensures
        levels_increasing(pop_path(path, level)),
        forall|k: int| 0 <= k < pop_path(path, level).len() ==> (#[trigger] pop_path(path, level)[k]).0 < level,
        pop_path(path, level).len() <= path.len(),
    decreases path.len(),
{
    if path.len() > 0 && path.last().0 >= level {
        lemma_pop_path(path.drop_last(), level);
    } else if path.len() > 0 {
        assert forall|k: int| 0 <= k < path.len() implies (#[trigger] path[k]).0 < level by {
            if k < path.len() - 1 {
                assert(path[k].0 < path[path.len() - 1].0);
            }
        }
    }
}

proof fn lemma_fold_path<C: TokenCounter + ?Sized>(
    max: nat,
    overlap: nat,
    levels: Seq<u8>,
    c: &C,
    meta: MetadataV,
    bs: Seq<BlockV>,
)
    ensures
        levels_increasing(fold_spec(max, overlap, levels, c, meta, bs).path),
    decreases bs.len(),
{
    if bs.len() > 0 {
        lemma_fold_path(max, overlap, levels, c, meta, bs.drop_last());
        let st = fold_spec(max, overlap, levels, c, meta, bs.drop_last());
        match bs.last() {
            BlockV::Heading { level, text } => {
                let sf = if levels.contains(level) { flush_spec(st, meta) } else { st };
                lemma_pop_path(sf.path, level);
                let p = pop_path(sf.path, level).push((level, text));
                assert forall|a: int, b: int| 0 <= a < b < p.len() implies (#[trigger] p[a]).0 < (#[trigger] p[b]).0 by {
                    if b == p.len() - 1 {
                        assert(p[a] == pop_path(sf.path, level)[a]);
                    } else {
                        assert(p[a] == pop_path(sf.path, level)[a]);
                        assert(p[b] == pop_path(sf.path, level)[b]);
                    }
                }
            },
            _ => {},
        }
    }
}

/// The heading path kept while chunking always has strictly increasing levels:
/// a heading replaces every open heading at its level or deeper.
pub proof fn law_heading_path_levels_increase<C: TokenCounter + ?Sized>(
    max: nat,
    overlap: nat,
    levels: Seq<u8>,
    c: &C,
    meta: MetadataV,
    bs: Seq<BlockV>,
)
    ensures
        levels_increasing(fold_spec(max, overlap, levels, c, meta, bs).path),
{
    lemma_fold_path(max, overlap, levels, c, meta, bs);
}

/// A heading at one of the split levels always starts a new chunk: once it is
/// folded in, the open run holds that heading alone (what came before it has
/// been closed into a chunk) and the heading path ends with it.
pub proof fn law_split_heading_starts_chunk<C: TokenCounter + ?Sized>(
    max: nat,
    overlap: nat,
    levels: Seq<u8>,
    c: &C,
    meta: MetadataV,
    bs: Seq<BlockV>,
    level: u8,
    text: Seq<char>,
)
    requires
        levels.contains(level),
    ensures
        fold_spec(max, overlap, levels, c, meta, bs.push(BlockV::Heading { level, text })).cur == seq![
            BlockV::Heading { level, text },
        ],
        fold_spec(max, overlap, levels, c, meta, bs.push(BlockV::Heading { level, text })).path.last() == (
        level,
        text,
        ),
{
    let h = BlockV::Heading { level, text };
    assert(bs.push(h).drop_last() =~= bs);
    assert(bs.push(h).last() == h);
    assert(Seq::<BlockV>::empty().push(h) =~= seq![h]);
}

/// When the next block would push a non-empty open run past `max` tokens,
/// the run is closed first: its trimmed Markdown (when not empty) becomes
/// the last chunk, and the block goes to the next run.  Without overlap that
/// run holds the block alone, with the block's own tokens.
pub proof fn law_size_split_closes_run<C: TokenCounter + ?Sized>(
    max: nat,
    overlap: nat,
    levels: Seq<u8>,
    c: &C,
    meta: MetadataV,
    st: ChunkState,
    b: BlockV,
)
    requires
        st.cur.len() > 0,
        st.cur_tokens + tokens_of(c, b) > max,
    ensures
        ({
            let nx = step_spec(max, overlap, levels, c, meta, st, b);
            &&& nx.cur.len() > 0 && nx.cur.last() == b
            &&& trim(render_blocks_spec(st.cur)).len() > 0 ==> nx.chunks.len() == st.chunks.len() + 1
                && nx.chunks.last().content == trim(render_blocks_spec(st.cur))
            &&& overlap == 0 ==> nx.cur == seq![b] && nx.cur_tokens == tokens_of(c, b)
        }),
{
    let nx = step_spec(max, overlap, levels, c, meta, st, b);
    if overlap == 0 {
        let st1 = match b {
            BlockV::Heading { level, text } => {
                let sf = if levels.contains(level) { flush_spec(st, meta) } else { st };
                ChunkState { chunks: sf.chunks, path: pop_path(sf.path, level).push((level, text)), cur: sf.cur, cur_tokens: sf.cur_tokens }
            },
            _ => st,
        };
        if st1.cur.len() > 0 {
            assert(carry_len(c, st1.cur, 0, 0) == 0);
            assert(st1.cur.skip(st1.cur.len() as int) =~= Seq::<BlockV>::empty());
            assert(sum_tokens(c, Seq::<BlockV>::empty()) == 0);
        }
        assert(nx.cur =~= seq![b]);
    }
}

/// When the next block fits (the open run and the block together hold at
/// most `max` tokens) and it is not a heading at a split level, no chunk is
/// closed: the block joins the open run and its tokens are added.
pub proof fn law_fitting_block_joins_run<C: TokenCounter + ?Sized>(
    max: nat,
    overlap: nat,
    levels: Seq<u8>,
    c: &C,
    meta: MetadataV,
    st: ChunkState,
    b: BlockV,
)
    requires
        st.cur_tokens + tokens_of(c, b) <= max,
        !(b matches BlockV::Heading { level, .. } && levels.contains(level)),
    ensures
        step_spec(max, overlap, levels, c, meta, st, b).chunks == st.chunks,
        step_spec(max, overlap, levels, c, meta, st, b).cur == st.cur.push(b),
        step_spec(max, overlap, levels, c, meta, st, b).cur_tokens == st.cur_tokens + tokens_of(c, b),
{
}

proof fn lemma_open_run_within_max<C: TokenCounter + ?Sized>(
    max: nat,
    levels: Seq<u8>,
    c: &C,
    meta: MetadataV,
    bs: Seq<BlockV>,
)
    ensures
        fold_spec(max, 0, levels, c, meta, bs).cur.len() > 1 ==> fold_spec(max, 0, levels, c, meta, bs).cur_tokens <= max,
        fold_spec(max, 0, levels, c, meta, bs).cur.len() == 0 ==> fold_spec(max, 0, levels, c, meta, bs).cur_tokens == 0,
    decreases bs.len(),
{
    if bs.len() > 0 {
        lemma_open_run_within_max(max, levels, c, meta, bs.drop_last());
        let st = fold_spec(max, 0, levels, c, meta, bs.drop_last());
        let b = bs.last();
        let st1 = match b {
            BlockV::Heading { level, text } => {
                let sf = if levels.contains(level) { flush_spec(st, meta) } else { st };
                ChunkState { chunks: sf.chunks, path: pop_path(sf.path, level).push((level, text)), cur: sf.cur, cur_tokens: sf.cur_tokens }
            },
            _ => st,
        };
        if st1.cur.len() > 0 {
            assert(carry_len(c, st1.cur, 0, 0) == 0);
            assert(st1.cur.skip(st1.cur.len() as int) =~= Seq::<BlockV>::empty());
            assert(sum_tokens(c, Seq::<BlockV>::empty()) == 0);
        }
    }
}

/// Without overlap, a run of more than one block never holds more than
/// `max` tokens: every chunk that closes such a run at a split heading or
/// at the end of the document has at most `max` tokens, and a size split
/// closes a run before it would pass `max`.
pub proof fn law_open_run_within_max<C: TokenCounter + ?Sized>(
    max: nat,
    levels: Seq<u8>,
    c: &C,
    meta: MetadataV,
    bs: Seq<BlockV>,
)
    ensures
        fold_spec(max, 0, levels, c, meta, bs).cur.len() > 1 ==> fold_spec(max, 0, levels, c, meta, bs).cur_tokens <= max,
{
    lemma_open_run_within_max(max, levels, c, meta, bs);
}

proof fn lemma_state_after_break(p: Seq<char>, b: Seq<char>)
    requires
        heuristic_state(p).1 == 0,
    ensures
        heuristic_state(p + b) == (heuristic_state(p).0 + heuristic_state(b).0, heuristic_state(b).1),
    decreases b.len(),
{
    if b.len() == 0 {
        assert(p + b =~= p);
    } else {
        lemma_state_after_break(p, b.drop_last());
        assert((p + b).drop_last() =~= p + b.drop_last());
        assert((p + b).last() == b.last());
    }
}

/// Whitespace separates token runs: counting `a`, a whitespace character and
/// `b` counts `a` and `b` apart and adds the two.
pub proof fn law_token_count_additive(a: Seq<char>, w: char, b: Seq<char>)
    requires
        is_ws(w),
    ensures
        heuristic_count(a + seq![w] + b) == heuristic_count(a) + heuristic_count(b),
{
    let aw = a + seq![w];
    assert(aw.drop_last() =~= a);
    assert(aw.last() == w);
    assert(!is_cjk_spec(w));
    lemma_state_after_break(aw, b);
}

proof fn lemma_blank_state(s: Seq<char>)
    ensures
        (heuristic_state(s).0 == 0 && heuristic_state(s).1 == 0) <==> is_blank(s),
    decreases s.len(),
{
    if s.len() > 0 {
        let p = s.drop_last();
        let c = s.last();
        lemma_blank_state(p);
        if is_blank(s) {
            assert forall|i: int| 0 <= i < p.len() implies is_ws(#[trigger] p[i]) by {
                assert(p[i] == s[i]);
            }
            assert(is_ws(s[s.len() - 1]));
        }
        if is_ws(c) && is_blank(p) {
            assert forall|i: int| 0 <= i < s.len() implies is_ws(#[trigger] s[i]) by {
                if i < s.len() - 1 {
                    assert(s[i] == p[i]);
                }
            }
        }
        if !is_ws(c) {
            assert(!is_ws(s[s.len() - 1]));
        }
    }
}

/// A text counts no token exactly when it is all whitespace.
pub proof fn law_token_count_zero_iff_blank(s: Seq<char>)
    ensures
        heuristic_count(s) == 0 <==> is_blank(s),
{
    lemma_blank_state(s);
}

} // verus!
