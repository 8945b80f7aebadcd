//! The command line editor: a character buffer with a cursor, a bounded
//! command history without adjacent repeats, and tab completion.
use vstd::prelude::*;
use rs_complete::CompletionTree;
use crate::text::{chars_of, string_of, strings_view};
use crate::model::{Event, EventView};
use crate::parse::same_text;

verus! {

/// The most commands the history keeps.
pub const MAX_HISTORY: usize = 100;

#[verifier::external_type_specification]
#[verifier::external_body]
pub struct ExCompletionTree(CompletionTree);

/// Relies on `CompletionTree::with_inclusions`: a tree that also counts the
/// given characters as parts of words.
#[verifier::external_body]
fn tree_with_inclusions(incl: &[char]) -> (r: CompletionTree) {
    CompletionTree::with_inclusions(incl)
}

/// Relies on `CompletionTree::set_min_word_len`: shorter words are not stored.
#[verifier::external_body]
fn tree_set_min_word_len(tree: &mut CompletionTree, len: usize) {
    tree.set_min_word_len(len)
}

/// Relies on `CompletionTree::insert`: stores the words of `line`.
#[verifier::external_body]
fn tree_insert(tree: &mut CompletionTree, line: &str) {
    tree.insert(line)
}

/// Relies on `CompletionTree::complete`: nothing for an empty line; otherwise
/// each option is the line followed by the rest of a stored word.
#[verifier::external_body]
fn tree_complete(tree: &CompletionTree, line: &str) -> (r: Option<Vec<String>>)
    ensures
        line@.len() == 0 ==> r is None,
        r matches Some(v) ==> forall|i: int|
            0 <= i < v@.len() ==> #[trigger] v@[i]@.subrange(0, line@.len() as int) == line@
                && line@.len() <= v@[i]@.len(),
{
    tree.complete(line)
}

/// The views of the options, if there are any.
pub open spec fn found_view(found: Option<Vec<String>>) -> Option<Seq<Seq<char>>> {
    match found {
        Some(v) => Some(strings_view(v@)),
        None => None,
    }
}

/// No two neighbouring entries are equal.
pub open spec fn no_adjacent_repeats(h: Seq<Seq<char>>) -> bool {
    forall|i: int| 0 <= i && i + 1 < h.len() ==> #[trigger] h[i] != h[i + 1]
}

/// The history after `cmd` is submitted: an empty command changes nothing; a
/// command equal to the last entry is not added again; the oldest entries are
/// dropped beyond the cap.
pub open spec fn history_after_submit(h: Seq<Seq<char>>, cmd: Seq<char>) -> Seq<Seq<char>> {
    if cmd.len() == 0 {
        h
    } else {
        let added = if h.len() > 0 && h.last() == cmd { h } else { h.push(cmd) };
        if added.len() > MAX_HISTORY {
            added.subrange(added.len() - MAX_HISTORY, added.len() as int)
        } else {
            added
        }
    }
}

/// The first space at or after `i`, or the end of `b`.
pub open spec fn next_space(b: Seq<char>, i: int) -> int
    decreases b.len() - i,
{
    if i >= b.len() {
        b.len() as int
    } else if b[i] == ' ' {
        i
    } else {
        next_space(b, i + 1)
    }
}

/// The position just after the last space before `i`, or 0.
pub open spec fn word_start(b: Seq<char>, i: int) -> int
    decreases i,
{
    if i <= 0 {
        0
    } else if b[i - 1] == ' ' {
        i
    } else {
        word_start(b, i - 1)
    }
}

/// Where a move one word to the right from `cursor` lands.
pub open spec fn word_right_target(b: Seq<char>, cursor: int) -> int {
    let origin = if cursor + 1 < b.len() { cursor + 1 } else { b.len() as int };
    next_space(b, origin)
}

/// Where a move one word to the left from `cursor` lands.
pub open spec fn word_left_target(b: Seq<char>, cursor: int) -> int {
    let origin = if cursor >= 1 { cursor - 1 } else { 0 };
    word_start(b, origin)
}

proof fn lemma_next_space_bounds(b: Seq<char>, i: int)
    requires
        0 <= i <= b.len(),
    ensures
        i <= next_space(b, i) <= b.len(),
    decreases b.len() - i,
{
    if i < b.len() && b[i] != ' ' {
        lemma_next_space_bounds(b, i + 1);
    }
}

proof fn lemma_word_start_bounds(b: Seq<char>, i: int)
    requires
        0 <= i <= b.len(),
    ensures
        0 <= word_start(b, i) <= i,
    decreases i,
{
    if i > 0 && b[i - 1] != ' ' {
        lemma_word_start_bounds(b, i - 1);
    }
}

/// The abstract state of the editor.
pub struct EditorState {
    pub buffer: Seq<char>,
    pub cached: Seq<char>,
    pub history: Seq<Seq<char>>,
    pub index: nat,
    pub cursor: nat,
    pub options: Seq<Seq<char>>,
    pub option_index: nat,
    pub base: Seq<char>,
}

impl EditorState {
    /// The editor's invariant: the cursor stands within the buffer, the history
    /// index within the history, and the history is capped without repeats.
    pub open spec fn wf(self) -> bool {
        &&& self.cursor <= self.buffer.len()
        &&& self.index <= self.history.len()
        &&& self.history.len() <= MAX_HISTORY
        &&& no_adjacent_repeats(self.history)
        &&& self.option_index <= self.options.len()
    }

    pub open spec fn with_buffer(self, buffer: Seq<char>, cursor: nat) -> EditorState {
        EditorState { buffer, cursor, ..self }
    }

    pub open spec fn moved_left(self) -> EditorState {
        if self.cursor > 0 { EditorState { cursor: (self.cursor - 1) as nat, ..self } } else { self }
    }

    pub open spec fn moved_right(self) -> EditorState {
        if self.cursor < self.buffer.len() { EditorState { cursor: self.cursor + 1, ..self } } else { self }
    }

    pub open spec fn pushed(self, c: char) -> EditorState {
        EditorState {
            buffer: self.buffer.insert(self.cursor as int, c),
            cursor: self.cursor + 1,
            options: Seq::empty(),
            option_index: 0,
            ..self
        }
    }

    pub open spec fn removed(self) -> EditorState {
        if self.cursor > 0 {
            self.with_buffer(self.buffer.remove(self.cursor - 1), (self.cursor - 1) as nat)
        } else {
            self
        }
    }

    pub open spec fn deleted_right(self) -> EditorState {
        if self.cursor < self.buffer.len() {
            self.with_buffer(self.buffer.remove(self.cursor as int), self.cursor)
        } else {
            self
        }
    }

    pub open spec fn cut(self, lo: int, hi: int, cursor: nat) -> EditorState {
        self.with_buffer(
            self.buffer.subrange(0, lo) + self.buffer.subrange(hi, self.buffer.len() as int),
            cursor,
        )
    }

    pub open spec fn deleted_word_right(self) -> EditorState {
        self.cut(self.cursor as int, word_right_target(self.buffer, self.cursor as int), self.cursor)
    }

    pub open spec fn deleted_word_left(self) -> EditorState {
        let t = word_left_target(self.buffer, self.cursor as int);
        self.cut(t, self.cursor as int, t as nat)
    }

    pub open spec fn submitted(self) -> EditorState {
        let h = history_after_submit(self.history, self.buffer);
        EditorState { buffer: Seq::empty(), cursor: 0, history: h, index: h.len(), ..self }
    }

    /// One step back in the history; the draft is kept when leaving the bottom.
    pub open spec fn stepped_back(self) -> EditorState {
        if self.history.len() == 0 {
            self
        } else {
            let cached = if self.index == self.history.len() { self.buffer } else { self.cached };
            let index: nat = if self.index > 0 { (self.index - 1) as nat } else { self.index };
            let buffer = self.history[index as int];
            EditorState { cached, index, buffer, cursor: buffer.len(), ..self }
        }
    }

    /// One step forward in the history; the draft comes back at the bottom.
    pub open spec fn stepped_forward(self) -> EditorState {
        if self.index < self.history.len() {
            let index = self.index + 1;
            if index == self.history.len() {
                EditorState {
                    index,
                    buffer: self.cached,
                    cached: Seq::empty(),
                    cursor: self.cached.len(),
                    ..self
                }
            } else {
                let buffer = self.history[index as int];
                EditorState { index, buffer, cursor: buffer.len(), ..self }
            }
        } else {
            EditorState { cursor: self.buffer.len(), ..self }
        }
    }
}

impl EditorState {
    /// The next completion step: options are taken from `found` when none are
    /// held, then the next option is put in the buffer, and after the last one
    /// the text that was completed.
    pub open spec fn completed(self, found: Option<Seq<Seq<char>>>) -> EditorState {
        if self.buffer.len() <= 1 {
            self
        } else {
            let s = if self.options.len() == 0 {
                match found {
                    Some(o) => EditorState { options: o, base: self.buffer, ..self },
                    None => self,
                }
            } else {
                self
            };
            s.cycled()
        }
    }

    pub open spec fn cycled(self) -> EditorState {
        if self.options.len() == 0 {
            self
        } else {
            let last = self.option_index;
            let comp = if last < self.options.len() { self.options[last as int] } else { self.base };
            EditorState {
                option_index: if last < self.options.len() { last + 1 } else { 0 },
                buffer: comp,
                cursor: comp.len(),
                ..self
            }
        }
    }
}

/// The completion options for the text being completed, and which comes next.
pub struct CompletionStepData {
    pub options: Vec<String>,
    pub index: usize,
    pub base: String,
}

impl CompletionStepData {
    pub fn new() -> (r: Self)
        ensures
            r.options@.len() == 0,
            r.index == 0,
            r.base@.len() == 0,
    {
        CompletionStepData { options: Vec::new(), index: 0, base: String::new() }
    }

    pub fn is_empty(&self) -> (r: bool)
        ensures
            r == (self.options@.len() == 0),
    {
        self.options.len() == 0
    }

    pub fn set_options(&mut self, base: &str, options: Vec<String>)
        ensures
            final(self).options == options,
            final(self).base@ == base@,
            final(self).index == old(self).index,
    {
        self.options = options;
        self.base = base.to_owned();
    }

    pub fn clear(&mut self)
        ensures
            final(self).options@.len() == 0,
            final(self).index == 0,
            final(self).base == old(self).base,
    {
        self.options.clear();
        self.index = 0;
    }

    /// The option at the current index, or the base after the last option;
    /// the index then moves on, wrapping round after the base.
    pub fn next(&mut self) -> (r: Option<String>)
        requires
            old(self).index <= old(self).options@.len(),
        ensures
            old(self).options@.len() == 0 ==> r is None && *final(self) == *old(self),
            old(self).options@.len() > 0 ==> {
                &&& final(self).options == old(self).options
                &&& final(self).base == old(self).base
                &&& final(self).index == if old(self).index < old(self).options@.len() {
                    old(self).index + 1
                } else {
                    0
                }
                &&& r == Some(if old(self).index < old(self).options@.len() {
                    old(self).options@[old(self).index as int]
                } else {
                    old(self).base
                })
            },
    {
        if !self.is_empty() {
            let last_index = self.index;
            self.index = if last_index < self.options.len() { last_index + 1 } else { 0 };
            if last_index < self.options.len() {
                Some(self.options[last_index].clone())
            } else {
                Some(self.base.clone())
            }
        } else {
            None
        }
    }
}

/// The line editor that feeds user input to the session.
pub struct CommandBuffer {
    pub buffer: Vec<char>,
    pub cached_buffer: Vec<char>,
    pub history: Vec<String>,
    pub current_index: usize,
    pub cursor_pos: usize,
    pub completion_tree: CompletionTree,
    pub completion: CompletionStepData,
}

impl View for CommandBuffer {
    type V = EditorState;

    open spec fn view(&self) -> EditorState {
        EditorState {
            buffer: self.buffer@,
            cached: self.cached_buffer@,
            history: strings_view(self.history@),
            index: self.current_index as nat,
            cursor: self.cursor_pos as nat,
            options: strings_view(self.completion.options@),
            option_index: self.completion.index as nat,
            base: self.completion.base@,
        }
    }
}

impl CommandBuffer {
    /// The editor's invariant.
    pub open spec fn wf(&self) -> bool {
        &&& self@.wf()
        &&& self.completion.options@.len() == 0 ==> self.completion.index == 0
    }

    /// An empty editor with an empty history, whose completion tree counts `/`
    /// and `_` as parts of words and keeps words of three characters or more.
    pub fn new() -> (r: Self)
        ensures
            r.wf(),
            r@.buffer.len() == 0,
            r@.cached.len() == 0,
            r@.history.len() == 0,
            r@.index == 0,
            r@.cursor == 0,
            r@.options.len() == 0,
    {
        let incl: [char; 2] = ['/', '_'];
        let mut completion = tree_with_inclusions(incl.as_slice());
        tree_set_min_word_len(&mut completion, 3);
        let r = CommandBuffer {
            buffer: Vec::new(),
            cached_buffer: Vec::new(),
            history: Vec::new(),
            current_index: 0,
            cursor_pos: 0,
            completion_tree: completion,
            completion: CompletionStepData::new(),
        };
        assert(r@.history =~= Seq::<Seq<char>>::empty());
        assert(r@.options =~= Seq::<Seq<char>>::empty());
        r
    }

    /// Adds the words of `line` to the words that completion offers.
    pub fn add_completions(&mut self, line: &str)
        requires
            old(self).wf(),
        ensures
            final(self).wf(),
            final(self)@ == old(self)@,
    {
        tree_insert(&mut self.completion_tree, line);
    }

    /// The text in the buffer.
    pub fn get_buffer(&self) -> (r: String)
        ensures
            r@ == self@.buffer,
    {
        string_of(self.buffer.as_slice())
    }

    pub fn get_pos(&self) -> (r: usize)
        ensures
            r == self.cursor_pos,
    {
        self.cursor_pos
    }

    pub fn move_left(&mut self)
        requires
            old(self).wf(),
        ensures
            final(self).wf(),
            final(self)@ == old(self)@.moved_left(),
    {
        if self.cursor_pos > 0 {
            self.cursor_pos = self.cursor_pos - 1;
        }
    }

    pub fn move_right(&mut self)
        requires
            old(self).wf(),
        ensures
            final(self).wf(),
            final(self)@ == old(self)@.moved_right(),
    {
        if self.cursor_pos < self.buffer.len() {
            self.cursor_pos = self.cursor_pos + 1;
        }
    }

    pub fn move_to_start(&mut self)
        requires
            old(self).wf(),
        ensures
            final(self).wf(),
            final(self)@ == old(self)@.with_buffer(old(self)@.buffer, 0),
    {
        self.cursor_pos = 0;
    }

    pub fn move_to_end(&mut self)
        requires
            old(self).wf(),
        ensures
            final(self).wf(),
            final(self)@ == old(self)@.with_buffer(old(self)@.buffer, old(self)@.buffer.len()),
    {
        self.cursor_pos = self.buffer.len();
    }

    pub fn push_key(&mut self, c: char)
        requires
            old(self).wf(),
        ensures
            final(self).wf(),
            final(self)@ == old(self)@.pushed(c),
    {
        self.buffer.insert(self.cursor_pos, c);
        let n = self.buffer.len();
        assert(self.cursor_pos < n);
        self.completion.clear();
        self.cursor_pos = self.cursor_pos + 1;
        assert(strings_view(self.completion.options@) =~= Seq::<Seq<char>>::empty());
    }

    pub fn remove(&mut self)
        requires
            old(self).wf(),
        ensures
            final(self).wf(),
            final(self)@ == old(self)@.removed(),
    {
        if self.cursor_pos > 0 {
            self.buffer.remove(self.cursor_pos - 1);
            self.cursor_pos = self.cursor_pos - 1;
        }
    }

    pub fn delete_right(&mut self)
        requires
            old(self).wf(),
        ensures
            final(self).wf(),
            final(self)@ == old(self)@.deleted_right(),
    {
        if self.cursor_pos < self.buffer.len() {
            self.buffer.remove(self.cursor_pos);
        }
    }

    pub fn move_word_right(&mut self)
        requires
            old(self).wf(),
        ensures
            final(self).wf(),
            final(self)@ == old(self)@.with_buffer(
                old(self)@.buffer,
                word_right_target(old(self)@.buffer, old(self)@.cursor as int) as nat,
            ),
    {
        let len = self.buffer.len();
        let origin = if self.cursor_pos < len { self.cursor_pos + 1 } else { len };
        let mut i = origin;
        while i < len && self.buffer[i] != ' '
            invariant
                len == self.buffer@.len(),
                origin <= i <= len,
                next_space(self.buffer@, origin as int) == next_space(self.buffer@, i as int),
            decreases len - i,
        {
            i = i + 1;
        }
        self.cursor_pos = i;
    }

    pub fn move_word_left(&mut self)
        requires
            old(self).wf(),
        ensures
            final(self).wf(),
            final(self)@ == old(self)@.with_buffer(
                old(self)@.buffer,
                word_left_target(old(self)@.buffer, old(self)@.cursor as int) as nat,
            ),
    {
        let origin = if self.cursor_pos >= 1 { self.cursor_pos - 1 } else { 0 };
        let mut i = origin;
        while i > 0 && self.buffer[i - 1] != ' '
            invariant
                i <= origin <= self.buffer@.len(),
                word_start(self.buffer@, origin as int) == word_start(self.buffer@, i as int),
            decreases i,
        {
            i = i - 1;
        }
        self.cursor_pos = i;
    }

    pub fn delete_to_end(&mut self)
        requires
            old(self).wf(),
        ensures
            final(self).wf(),
            final(self)@ == old(self)@.with_buffer(
                old(self)@.buffer.subrange(0, old(self)@.cursor as int),
                old(self)@.cursor,
            ),
    {
        self.buffer.truncate(self.cursor_pos);
    }

    pub fn delete_from_start(&mut self)
        requires
            old(self).wf(),
        ensures
            final(self).wf(),
            final(self)@ == old(self)@.cut(0, old(self)@.cursor as int, 0),
    {
        cut_range(&mut self.buffer, 0, self.cursor_pos);
        self.cursor_pos = 0;
    }

    pub fn delete_word_right(&mut self)
        requires
            old(self).wf(),
        ensures
            final(self).wf(),
            final(self)@ == old(self)@.deleted_word_right(),
    {
        let origin = self.cursor_pos;
        self.move_word_right();
        proof {
            let b = old(self)@.buffer;
            lemma_next_space_bounds(b, if origin + 1 < b.len() { origin + 1 } else { b.len() as int });
        }
        if origin != self.cursor_pos {
            cut_range(&mut self.buffer, origin, self.cursor_pos);
            self.cursor_pos = origin;
        } else {
            assert(self.buffer@ =~= self.buffer@.subrange(0, origin as int)
                + self.buffer@.subrange(origin as int, self.buffer@.len() as int));
        }
    }

    pub fn delete_word_left(&mut self)
        requires
            old(self).wf(),
        ensures
            final(self).wf(),
            final(self)@ == old(self)@.deleted_word_left(),
    {
        let origin = self.cursor_pos;
        self.move_word_left();
        proof {
            lemma_word_start_bounds(old(self)@.buffer, if origin >= 1 { origin - 1 } else { 0 });
        }
        if origin != self.cursor_pos {
            cut_range(&mut self.buffer, self.cursor_pos, origin);
        } else {
            assert(self.buffer@ =~= self.buffer@.subrange(0, origin as int)
                + self.buffer@.subrange(origin as int, self.buffer@.len() as int));
        }
    }
}

impl CommandBuffer {
    /// Hands out the command in the buffer and empties the buffer. A non-empty
    /// command enters the completion tree and, unless it repeats the last
    /// entry, the history, whose oldest entry leaves beyond the cap.
    pub fn submit(&mut self) -> (r: String)
        requires
            old(self).wf(),
        ensures
            final(self).wf(),
            r@ == old(self)@.buffer,
            final(self)@ == old(self)@.submitted(),
    {
        let ghost h0 = self@.history;
        let cmd = if self.buffer.len() > 0 {
            let command = self.get_buffer();
            tree_insert(&mut self.completion_tree, command.as_str());
            let n = self.history.len();
            if n == 0 || self.history[n - 1] != command {
                self.history.push(command.clone());
                proof {
                    assert(strings_view(self.history@) =~= h0.push(command@));
                }
            }
            let ghost added = strings_view(self.history@);
            assert(added == if h0.len() > 0 && h0.last() == command@ { h0 } else { h0.push(command@) });
            if self.history.len() > MAX_HISTORY {
                self.history.remove(0);
                assert(strings_view(self.history@) =~= added.subrange(added.len() - MAX_HISTORY, added.len() as int));
            }
            command
        } else {
            String::new()
        };
        self.current_index = self.history.len();
        self.buffer.clear();
        self.cursor_pos = 0;
        cmd
    }

    /// Steps back in the history, keeping the draft when leaving the bottom.
    pub fn previous(&mut self)
        requires
            old(self).wf(),
        ensures
            final(self).wf(),
            final(self)@ == old(self)@.stepped_back(),
    {
        if self.history.len() > 0 {
            if self.current_index == self.history.len() {
                self.cached_buffer = self.buffer.clone();
                assert(self.cached_buffer@ =~= self.buffer@);
            }
            if self.current_index > 0 {
                self.current_index = self.current_index - 1;
            }
            self.buffer = chars_of(self.history[self.current_index].as_str());
            self.cursor_pos = self.buffer.len();
        }
    }

    /// Steps forward in the history, bringing the draft back at the bottom.
    pub fn next(&mut self)
        requires
            old(self).wf(),
        ensures
            final(self).wf(),
            final(self)@ == old(self)@.stepped_forward(),
    {
        let new_index = if self.current_index < self.history.len() {
            self.current_index + 1
        } else {
            self.current_index
        };
        if new_index != self.current_index {
            self.current_index = new_index;
            if self.current_index == self.history.len() {
                self.buffer = self.cached_buffer.clone();
                assert(self.buffer@ =~= old(self).cached_buffer@);
                self.cached_buffer.clear();
            } else {
                self.buffer = chars_of(self.history[self.current_index].as_str());
            }
        }
        self.cursor_pos = self.buffer.len();
    }

    /// Puts the next completion of the buffer's text in the buffer. Options
    /// are looked up in the completion tree when none are held.
    pub fn tab_complete(&mut self)
        requires
            old(self).wf(),
        ensures
            final(self).wf(),
            old(self)@.options.len() > 0 ==> final(self)@ == old(self)@.completed(None),
            exists|found: Option<Seq<Seq<char>>>| final(self)@ == old(self)@.completed(found),
            old(self)@.options.len() == 0 ==> forall|i: int| 0 <= i < final(self)@.options.len()
                ==> #[trigger] final(self)@.options[i].subrange(0, old(self)@.buffer.len() as int) == old(self)@.buffer,
    {
        if self.buffer.len() > 1 && self.completion.is_empty() {
            let line = self.get_buffer();
            let found = tree_complete(&self.completion_tree, line.as_str());
            let ghost fv = found_view(found);
            proof {
                if found is Some {
                    let v = found->0;
                    assert forall|i: int| 0 <= i < v@.len() implies
                        #[trigger] strings_view(v@)[i].subrange(0, line@.len() as int) == line@ by {
                        assert(strings_view(v@)[i] == v@[i]@);
                    }
                }
            }
            self.complete_with(found);
            assert(self@ == old(self)@.completed(fv));
        } else {
            self.complete_with(None);
        }
    }

    /// One completion step, where `found` holds the options that the
    /// completion tree gave for the buffer's text, if it was asked.
    pub fn complete_with(&mut self, found: Option<Vec<String>>)
        requires
            old(self).wf(),
        ensures
            final(self).wf(),
            final(self)@ == old(self)@.completed(found_view(found)),
    {
        if self.buffer.len() > 1 {
            if self.completion.is_empty() {
                match found {
                    Some(options) => {
                        let base = self.get_buffer();
                        self.completion.set_options(base.as_str(), options);
                    },
                    None => {},
                }
            }
            match self.completion.next() {
                Some(comp) => {
                    self.buffer = chars_of(comp.as_str());
                    self.cursor_pos = self.buffer.len();
                },
                None => {},
            }
        }
    }
}

/// Submitting commands keeps the history free of neighbouring repeats and
/// within its cap, whatever the command.
pub proof fn lemma_submit_keeps_history(h: Seq<Seq<char>>, cmd: Seq<char>)
    requires
        no_adjacent_repeats(h),
        h.len() <= MAX_HISTORY,
    ensures
        no_adjacent_repeats(history_after_submit(h, cmd)),
        history_after_submit(h, cmd).len() <= MAX_HISTORY,
{
    if cmd.len() > 0 {
        let added = if h.len() > 0 && h.last() == cmd { h } else { h.push(cmd) };
        assert(no_adjacent_repeats(added)) by {
            assert forall|i: int| 0 <= i && i + 1 < added.len() implies #[trigger] added[i] != added[i + 1] by {
                if i + 1 < h.len() {
                    assert(added[i] == h[i] && added[i + 1] == h[i + 1]);
                }
            }
        }
        if added.len() > MAX_HISTORY {
            let t = added.subrange(added.len() - MAX_HISTORY, added.len() as int);
            assert forall|i: int| 0 <= i && i + 1 < t.len() implies #[trigger] t[i] != t[i + 1] by {
                assert(t[i] == added[i + 1] && t[i + 1] == added[i + 2]);
            }
        }
    }
}

/// Stepping back in the history and then forward again, starting from the
/// bottom of the history, restores the buffer and leaves the cursor at its end.
pub proof fn lemma_history_round_trip(s: EditorState)
    requires
        s.wf(),
        s.index == s.history.len(),
    ensures
        s.stepped_back().stepped_forward().buffer == s.buffer,
        s.stepped_back().stepped_forward().cursor == s.buffer.len(),
{
}

/// Removes the characters in `[lo, hi)` from `v`.
fn cut_range(v: &mut Vec<char>, lo: usize, hi: usize)
    requires
        lo <= hi <= old(v)@.len(),
    ensures
        final(v)@ == old(v)@.subrange(0, lo as int) + old(v)@.subrange(hi as int, old(v)@.len() as int),
{
    let mut tail = v.split_off(hi);
    v.truncate(lo);
    v.append(&mut tail);
}

/// What a script asks of the editor or the view.
#[derive(Clone, Debug, PartialEq, Eq)]
pub enum UiEvent {
    StepLeft,
    StepRight,
    StepToStart,
    StepToEnd,
    StepWordLeft,
    StepWordRight,
    Remove,
    DeleteToEnd,
    DeleteFromStart,
    DeleteWordLeft,
    DeleteWordRight,
    DeleteRight,
    PreviousCommand,
    NextCommand,
    ScrollDown,
    ScrollUp,
    ScrollTop,
    ScrollBottom,
    Complete,
    Unknown(String),
}

/// The request a name stands for, when it is a known one.
pub open spec fn ui_event_named(name: Seq<char>) -> Option<UiEvent> {
    if name == "step_left"@ {
        Some(UiEvent::StepLeft)
    } else if name == "step_right"@ {
        Some(UiEvent::StepRight)
    } else if name == "step_to_start"@ {
        Some(UiEvent::StepToStart)
    } else if name == "step_to_end"@ {
        Some(UiEvent::StepToEnd)
    } else if name == "step_word_left"@ {
        Some(UiEvent::StepWordLeft)
    } else if name == "step_word_right"@ {
        Some(UiEvent::StepWordRight)
    } else if name == "remove"@ {
        Some(UiEvent::Remove)
    } else if name == "delete_to_end"@ {
        Some(UiEvent::DeleteToEnd)
    } else if name == "delete_from_start"@ {
        Some(UiEvent::DeleteFromStart)
    } else if name == "delete_word_left"@ {
        Some(UiEvent::DeleteWordLeft)
    } else if name == "delete_word_right"@ {
        Some(UiEvent::DeleteWordRight)
    } else if name == "delete_right"@ {
        Some(UiEvent::DeleteRight)
    } else if name == "previous_command"@ {
        Some(UiEvent::PreviousCommand)
    } else if name == "next_command"@ {
        Some(UiEvent::NextCommand)
    } else if name == "scroll_down"@ {
        Some(UiEvent::ScrollDown)
    } else if name == "scroll_up"@ {
        Some(UiEvent::ScrollUp)
    } else if name == "scroll_top"@ {
        Some(UiEvent::ScrollTop)
    } else if name == "scroll_bottom"@ {
        Some(UiEvent::ScrollBottom)
    } else if name == "complete"@ {
        Some(UiEvent::Complete)
    } else {
        None
    }
}

/// The request of the given name; an unknown name is kept as it is.
pub fn ui_event_from_name(name: &str) -> (r: UiEvent)
    ensures
        match r {
            UiEvent::Unknown(s) => s@ == name@ && ui_event_named(name@) is None,
            _ => ui_event_named(name@) == Some(r),
        },
{
    if same_text(name, "step_left") {
        UiEvent::StepLeft
    } else if same_text(name, "step_right") {
        UiEvent::StepRight
    } else if same_text(name, "step_to_start") {
        UiEvent::StepToStart
    } else if same_text(name, "step_to_end") {
        UiEvent::StepToEnd
    } else if same_text(name, "step_word_left") {
        UiEvent::StepWordLeft
    } else if same_text(name, "step_word_right") {
        UiEvent::StepWordRight
    } else if same_text(name, "remove") {
        UiEvent::Remove
    } else if same_text(name, "delete_to_end") {
        UiEvent::DeleteToEnd
    } else if same_text(name, "delete_from_start") {
        UiEvent::DeleteFromStart
    } else if same_text(name, "delete_word_left") {
        UiEvent::DeleteWordLeft
    } else if same_text(name, "delete_word_right") {
        UiEvent::DeleteWordRight
    } else if same_text(name, "delete_right") {
        UiEvent::DeleteRight
    } else if same_text(name, "previous_command") {
        UiEvent::PreviousCommand
    } else if same_text(name, "next_command") {
        UiEvent::NextCommand
    } else if same_text(name, "scroll_down") {
        UiEvent::ScrollDown
    } else if same_text(name, "scroll_up") {
        UiEvent::ScrollUp
    } else if same_text(name, "scroll_top") {
        UiEvent::ScrollTop
    } else if same_text(name, "scroll_bottom") {
        UiEvent::ScrollBottom
    } else if same_text(name, "complete") {
        UiEvent::Complete
    } else {
        UiEvent::Unknown(name.to_owned())
    }
}

/// The event for the bus that a request stands for, if any.
pub open spec fn ui_bus_event(ev: UiEvent) -> Option<EventView> {
    match ev {
        UiEvent::ScrollDown => Some(EventView::ScrollDown),
        UiEvent::ScrollUp => Some(EventView::ScrollUp),
        UiEvent::ScrollTop => Some(EventView::ScrollTop),
        UiEvent::ScrollBottom => Some(EventView::ScrollBottom),
        _ => None,
    }
}

impl EditorState {
    /// The editor after a request other than completion.
    pub open spec fn ui_applied(self, ev: UiEvent) -> EditorState {
        match ev {
            UiEvent::StepLeft => self.moved_left(),
            UiEvent::StepRight => self.moved_right(),
            UiEvent::StepToStart => self.with_buffer(self.buffer, 0),
            UiEvent::StepToEnd => self.with_buffer(self.buffer, self.buffer.len()),
            UiEvent::StepWordLeft => self.with_buffer(self.buffer, word_left_target(self.buffer, self.cursor as int) as nat),
            UiEvent::StepWordRight => self.with_buffer(self.buffer, word_right_target(self.buffer, self.cursor as int) as nat),
            UiEvent::Remove => self.removed(),
            UiEvent::DeleteToEnd => self.with_buffer(self.buffer.subrange(0, self.cursor as int), self.cursor),
            UiEvent::DeleteFromStart => self.cut(0, self.cursor as int, 0),
            UiEvent::DeleteWordLeft => self.deleted_word_left(),
            UiEvent::DeleteWordRight => self.deleted_word_right(),
            UiEvent::DeleteRight => self.deleted_right(),
            UiEvent::PreviousCommand => self.stepped_back(),
            UiEvent::NextCommand => self.stepped_forward(),
            _ => self,
        }
    }
}

impl CommandBuffer {
    /// Carries out a request of a script: an edit of the buffer, a step in
    /// the history, a completion step, or an event for the bus.
    pub fn apply_ui_event(&mut self, ev: UiEvent) -> (r: Option<Event>)
        requires
            old(self).wf(),
        ensures
            final(self).wf(),
            match r {
                Some(e) => ui_bus_event(ev) == Some(e@),
                None => ui_bus_event(ev) is None,
            },
            !(ev is Complete) ==> final(self)@ == old(self)@.ui_applied(ev),
            ev is Complete ==> exists|found: Option<Seq<Seq<char>>>| final(self)@ == old(self)@.completed(found),
    {
        match ev {
            UiEvent::StepLeft => self.move_left(),
            UiEvent::StepRight => self.move_right(),
            UiEvent::StepToStart => self.move_to_start(),
            UiEvent::StepToEnd => self.move_to_end(),
            UiEvent::StepWordLeft => self.move_word_left(),
            UiEvent::StepWordRight => self.move_word_right(),
            UiEvent::Remove => self.remove(),
            UiEvent::DeleteToEnd => self.delete_to_end(),
            UiEvent::DeleteFromStart => self.delete_from_start(),
            UiEvent::DeleteWordLeft => self.delete_word_left(),
            UiEvent::DeleteWordRight => self.delete_word_right(),
            UiEvent::DeleteRight => self.delete_right(),
            UiEvent::PreviousCommand => self.previous(),
            UiEvent::NextCommand => self.next(),
            UiEvent::Complete => self.tab_complete(),
            UiEvent::ScrollDown => return Some(Event::ScrollDown),
            UiEvent::ScrollUp => return Some(Event::ScrollUp),
            UiEvent::ScrollTop => return Some(Event::ScrollTop),
            UiEvent::ScrollBottom => return Some(Event::ScrollBottom),
            UiEvent::Unknown(_) => {},
        }
        None
    }
}

} // verus!
