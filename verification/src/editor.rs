//! The editor's state and how each command changes it. The host holds the
//! drawing surface and its graphics context; the editor decides what the
//! host must do with them.
use vstd::prelude::*;
use crate::text::same_text;

verus! {

/// What a viewport shows.
#[derive(Debug, Clone, Copy, PartialEq, Eq, Structural)]
pub enum ViewportOptions {
    Blank,
}

/// The edges of a viewport on the surface, each the bit pattern of an
/// IEEE-754 single-precision number.
#[derive(Debug, Default, Clone, Copy, PartialEq, Eq, Structural)]
pub struct ViewportBounds {
    pub top: u32,
    pub right: u32,
    pub bottom: u32,
    pub left: u32,
}

/// A region of the surface, named by a key.
#[derive(Debug, Clone)]
pub struct Viewport {
    pub key: String,
    pub bounds: ViewportBounds,
    pub options: ViewportOptions,
}

/// A viewport as values.
pub struct ViewportView {
    pub key: Seq<char>,
    pub bounds: ViewportBounds,
    pub options: ViewportOptions,
}

impl View for Viewport {
    type V = ViewportView;

    open spec fn view(&self) -> ViewportView {
        ViewportView { key: self.key@, bounds: self.bounds, options: self.options }
    }
}

/// A message the host sends the editor.
#[derive(Debug, Clone)]
pub enum Command {
    Init,
    Ping,
    AddViewport { viewport: Viewport },
    RemoveViewport { key: String },
    UpdateViewport { viewport: Viewport },
    Resize { width: i32, height: i32 },
    Draw,
}

/// What the host must do after a command.
#[derive(Debug, Clone, Copy, PartialEq, Eq, Structural)]
pub enum EditorAction {
    /// Nothing.
    Nothing,
    /// Keep the surface it sent and its graphics context, with scissor
    /// tests on.
    AttachSurface,
    /// Give the surface this width and height.
    ResizeSurface { width: u32, height: u32 },
    /// Clear the surface, then each viewport in its colour.
    Draw,
}

/// The editor: the surface size, the viewports, and whether the host has
/// attached a surface and a graphics context.
#[derive(Debug)]
pub struct Editor {
    pub width: u32,
    pub height: u32,
    pub viewports: Vec<Viewport>,
    pub has_surface: bool,
    pub has_context: bool,
}

/// The views of a list of viewports.
pub open spec fn viewports_view(vs: Seq<Viewport>) -> Seq<ViewportView> {
    Seq::new(vs.len(), |i: int| vs[i]@)
}

/// `vs` without the viewports whose key is `key`, in their order.
pub open spec fn without_key(vs: Seq<ViewportView>, key: Seq<char>) -> Seq<ViewportView>
    decreases vs.len(),
{
    if vs.len() == 0 {
        vs
    } else if vs.last().key == key {
        without_key(vs.drop_last(), key)
    } else {
        without_key(vs.drop_last(), key).push(vs.last())
    }
}

/// `i` is the first viewport of `vs` whose key is `key`.
pub open spec fn is_first_key(vs: Seq<ViewportView>, key: Seq<char>, i: int) -> bool {
    &&& 0 <= i < vs.len()
    &&& vs[i].key == key
    &&& forall|j: int| 0 <= j < i ==> vs[j].key != key
}

/// `vs` with its first viewport of `v`'s key replaced by `v`; unchanged
/// when no viewport has that key.
pub open spec fn updated(vs: Seq<ViewportView>, v: ViewportView) -> Seq<ViewportView> {
    if exists|i: int| is_first_key(vs, v.key, i) {
        vs.update(choose|i: int| is_first_key(vs, v.key, i), v)
    } else {
        vs
    }
}

/// The width or height a resize message asks for, its bits read unsigned.
pub open spec fn surface_length(v: i32) -> u32 {
    v as u32
}

proof fn lemma_first_key_unique(vs: Seq<ViewportView>, key: Seq<char>, i: int)
    requires
        is_first_key(vs, key, i),
    ensures
        (choose|j: int| is_first_key(vs, key, j)) == i,
{
    let j = choose|j: int| is_first_key(vs, key, j);
    assert(is_first_key(vs, key, j));
    if j < i {
        assert(vs[j].key != key);
    } else if j > i {
        assert(vs[i].key != key);
    }
}

fn clone_viewport(v: &Viewport) -> (r: Viewport)
    ensures
        r@ == v@,
{
    Viewport { key: v.key.clone(), bounds: v.bounds, options: v.options }
}

impl Editor {
    /// An editor with no surface, no context, no viewports and a zero size.
    pub fn init() -> (r: Editor)
        ensures
            r.width == 0,
            r.height == 0,
            r.viewports@.len() == 0,
            !r.has_surface,
            !r.has_context,
    {
        Editor { width: 0, height: 0, viewports: Vec::new(), has_surface: false, has_context: false }
    }

    /// A message that comes with a surface: only `Init`, which attaches the
    /// surface and its context.
    pub fn send_command_with_canvas(&mut self, command: Command) -> (r: EditorAction)
        requires
            command is Init,
        ensures
            r == EditorAction::AttachSurface,
            final(self).has_surface,
            final(self).has_context,
            final(self).width == old(self).width,
            final(self).height == old(self).height,
            final(self).viewports@ == old(self).viewports@,
    {
        self.has_surface = true;
        self.has_context = true;
        EditorAction::AttachSurface
    }

    /// A message without a surface: the editor's new state, and what the
    /// host must do. `Init` needs a surface and is not such a message.
    pub fn send_command(&mut self, command: Command) -> (r: EditorAction)
        requires
            !(command is Init),
        ensures
            final(self).has_surface == old(self).has_surface,
            final(self).has_context == old(self).has_context,
            match command {
                Command::Resize { width, height } => {
                    &&& final(self).width == surface_length(width)
                    &&& final(self).height == surface_length(height)
                    &&& final(self).viewports@ == old(self).viewports@
                    &&& r == if old(self).has_surface {
                        EditorAction::ResizeSurface {
                            width: surface_length(width),
                            height: surface_length(height),
                        }
                    } else {
                        EditorAction::Nothing
                    }
                },
                Command::Draw => {
                    &&& final(self).width == old(self).width
                    &&& final(self).height == old(self).height
                    &&& final(self).viewports@ == old(self).viewports@
                    &&& r == if old(self).has_context { EditorAction::Draw } else { EditorAction::Nothing }
                },
                _ => {
                    &&& final(self).width == old(self).width
                    &&& final(self).height == old(self).height
                    &&& r == EditorAction::Nothing
                    &&& viewports_view(final(self).viewports@) == match command {
                        Command::AddViewport { viewport } => viewports_view(old(self).viewports@).push(viewport@),
                        Command::RemoveViewport { key } => without_key(viewports_view(old(self).viewports@), key@),
                        Command::UpdateViewport { viewport } => updated(viewports_view(old(self).viewports@), viewport@),
                        _ => viewports_view(old(self).viewports@),
                    }
                },
            },
    {
        match command {
            Command::Ping => EditorAction::Nothing,
            Command::Resize { width, height } => {
                self.width = width as u32;
                self.height = height as u32;
                if self.has_surface {
                    EditorAction::ResizeSurface { width: self.width, height: self.height }
                } else {
                    EditorAction::Nothing
                }
            },
            Command::AddViewport { viewport } => {
                let ghost before = viewports_view(self.viewports@);
                self.viewports.push(viewport);
                proof {
                    assert(viewports_view(self.viewports@) =~= before.push(self.viewports@.last()@));
                }
                EditorAction::Nothing
            },
            Command::RemoveViewport { key } => {
                self.remove_viewports(&key);
                EditorAction::Nothing
            },
            Command::UpdateViewport { viewport } => {
                self.update_viewport(viewport);
                EditorAction::Nothing
            },
            Command::Draw => {
                if self.has_context {
                    EditorAction::Draw
                } else {
                    EditorAction::Nothing
                }
            },
            Command::Init => EditorAction::Nothing,
        }
    }

    fn remove_viewports(&mut self, key: &String)
        ensures
            final(self).width == old(self).width,
            final(self).height == old(self).height,
            final(self).has_surface == old(self).has_surface,
            final(self).has_context == old(self).has_context,
            viewports_view(final(self).viewports@) == without_key(viewports_view(old(self).viewports@), key@),
    {
        let ghost all = viewports_view(self.viewports@);
        let mut kept: Vec<Viewport> = Vec::new();
        let mut k: usize = 0;
        while k < self.viewports.len()
            invariant
                k <= self.viewports@.len(),
                all == viewports_view(self.viewports@),
                self.width == old(self).width,
                self.height == old(self).height,
                self.has_surface == old(self).has_surface,
                self.has_context == old(self).has_context,
                viewports_view(kept@) == without_key(all.subrange(0, k as int), key@),
            decreases self.viewports@.len() - k,
        {
            proof {
                assert(all.subrange(0, k + 1).drop_last() =~= all.subrange(0, k as int));
                assert(all.subrange(0, k + 1).last() == self.viewports@[k as int]@);
            }
            if !same_text(self.viewports[k].key.as_str(), key.as_str()) {
                let ghost before = viewports_view(kept@);
                let v = clone_viewport(&self.viewports[k]);
                kept.push(v);
                proof {
                    assert(viewports_view(kept@) =~= before.push(v@));
                }
            }
            k = k + 1;
        }
        proof {
            assert(all.subrange(0, self.viewports@.len() as int) =~= all);
        }
        self.viewports = kept;
    }

    fn update_viewport(&mut self, viewport: Viewport)
        ensures
            final(self).width == old(self).width,
            final(self).height == old(self).height,
            final(self).has_surface == old(self).has_surface,
            final(self).has_context == old(self).has_context,
            viewports_view(final(self).viewports@) == updated(viewports_view(old(self).viewports@), viewport@),
    {
        let ghost all = viewports_view(self.viewports@);
        let mut k: usize = 0;
        while k < self.viewports.len()
            invariant
                k <= self.viewports@.len(),
                all == viewports_view(self.viewports@),
                self.width == old(self).width,
                self.height == old(self).height,
                self.has_surface == old(self).has_surface,
                self.has_context == old(self).has_context,
                self.viewports@ == old(self).viewports@,
                forall|j: int| 0 <= j < k ==> all[j].key != viewport@.key,
            decreases self.viewports@.len() - k,
        {
            if same_text(self.viewports[k].key.as_str(), viewport.key.as_str()) {
                proof {
                    assert(is_first_key(all, viewport@.key, k as int));
                    lemma_first_key_unique(all, viewport@.key, k as int);
                }
                let ghost v = viewport@;
                self.viewports.set(k, viewport);
                proof {
                    assert(viewports_view(self.viewports@) =~= all.update(k as int, v));
                }
                return;
            }
            k = k + 1;
        }
        proof {
            assert(!exists|i: int| is_first_key(all, viewport@.key, i));
        }
    }
}

/// Adding a viewport and then removing its key leaves the viewports that
/// had other keys, in their order.
pub proof fn lemma_add_then_remove(vs: Seq<ViewportView>, v: ViewportView)
    ensures
        without_key(vs.push(v), v.key) == without_key(vs, v.key),
{
    assert(vs.push(v).drop_last() =~= vs);
}

/// Removing a key keeps exactly the viewports with other keys, in their
/// order: the result is the list filtered by "key differs".
pub proof fn lemma_remove_is_filter(vs: Seq<ViewportView>, key: Seq<char>)
    ensures
        without_key(vs, key) == vs.filter(|v: ViewportView| v.key != key),
    decreases vs.len(),
{
    reveal_with_fuel(Seq::filter, 1);
    if vs.len() > 0 {
        lemma_remove_is_filter(vs.drop_last(), key);
    }
}

/// Removing a key from two lists joined is removing it from each and
/// joining the results: no viewport moves past another.
pub proof fn lemma_remove_distributes(a: Seq<ViewportView>, b: Seq<ViewportView>, key: Seq<char>)
    ensures
        without_key(a + b, key) == without_key(a, key) + without_key(b, key),
    decreases b.len(),
{
    if b.len() == 0 {
        assert(a + b =~= a);
        assert(without_key(a, key) + without_key(b, key) =~= without_key(a, key));
    } else {
        lemma_remove_distributes(a, b.drop_last(), key);
        assert((a + b).drop_last() =~= a + b.drop_last());
        assert((a + b).last() == b.last());
        if b.last().key != key {
            assert(without_key(a, key) + without_key(b.drop_last(), key).push(b.last())
                =~= (without_key(a, key) + without_key(b.drop_last(), key)).push(b.last()));
        }
    }
}

/// Removing a key keeps a viewport with another key, and drops every
/// viewport with that key; what stays keeps its order, so the viewport
/// that came first of two kept ones still comes first.
pub proof fn lemma_remove_keeps_order(vs: Seq<ViewportView>, key: Seq<char>, i: int, j: int)
    requires
        0 <= i < j < vs.len(),
        vs[i].key != key,
        vs[j].key != key,
    ensures
        ({
            let r = without_key(vs, key);
            let before = without_key(vs.subrange(0, i), key).len();
            let between = without_key(vs.subrange(0, j), key).len();
            &&& before < between < r.len()
            &&& r[before as int] == vs[i]
            &&& r[between as int] == vs[j]
        }),
        forall|k: int| 0 <= k < without_key(vs, key).len() ==> #[trigger] without_key(vs, key)[k].key != key,
{
    let r = without_key(vs, key);
    let pre_i = vs.subrange(0, i);
    let pre_j = vs.subrange(0, j);
    lemma_remove_distributes(pre_i, vs.subrange(i, vs.len() as int), key);
    assert(pre_i + vs.subrange(i, vs.len() as int) =~= vs);
    lemma_remove_distributes(pre_j, vs.subrange(j, vs.len() as int), key);
    assert(pre_j + vs.subrange(j, vs.len() as int) =~= vs);
    lemma_remove_distributes(pre_i, vs.subrange(i, j), key);
    assert(pre_i + vs.subrange(i, j) =~= pre_j);
    lemma_remove_distributes(seq![vs[i]], vs.subrange(i + 1, j), key);
    assert(seq![vs[i]] + vs.subrange(i + 1, j) =~= vs.subrange(i, j));
    lemma_remove_distributes(seq![vs[j]], vs.subrange(j + 1, vs.len() as int), key);
    assert(seq![vs[j]] + vs.subrange(j + 1, vs.len() as int) =~= vs.subrange(j, vs.len() as int));
    lemma_remove_distributes(seq![vs[i]], vs.subrange(i + 1, vs.len() as int), key);
    assert(seq![vs[i]] + vs.subrange(i + 1, vs.len() as int) =~= vs.subrange(i, vs.len() as int));
    assert(seq![vs[i]].drop_last() =~= Seq::<ViewportView>::empty());
    assert(seq![vs[j]].drop_last() =~= Seq::<ViewportView>::empty());
    assert(without_key(Seq::<ViewportView>::empty(), key) =~= Seq::<ViewportView>::empty());
    assert(seq![vs[i]].last() == vs[i]);
    assert(without_key(seq![vs[i]], key) =~= seq![vs[i]]);
    assert(without_key(seq![vs[j]], key) =~= seq![vs[j]]);
    lemma_remove_is_filter(vs, key);
    assert forall|k: int| 0 <= k < r.len() implies #[trigger] r[k].key != key by {
        vs.lemma_filter_pred(|v: ViewportView| v.key != key, k);
    }
}

} // verus!
