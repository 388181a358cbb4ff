//! The scene-graph walker: a transform node leads to a group, which
//! becomes a directory and is walked child by child, or to a shape,
//! which becomes one mesh file, or a directory of per-frame mesh
//! files when it carries several animation frames. The walk produces
//! a plan of directory and file actions; building and writing the
//! meshes themselves is left to the caller, one `WriteFile` action at
//! a time.

use vstd::prelude::*;
use vstd::string::StringExecFns;
use crate::error::Error;
use crate::model::SceneNode;
use crate::model::ShapeModel;
use crate::model::VoxData;

verus! {

/// One step of the output plan: create a directory, or convert the
/// model with the given id and write its mesh to the file. Paths are
/// relative to the output root, one component per element.
#[derive(Clone, Debug, PartialEq, Eq)]
pub enum Action {
    MakeDir { path: Vec<String> },
    WriteFile { path: Vec<String>, model_id: u32 },
}

/// The mathematical content of an action: the path components and,
/// for a file, the model id to convert.
pub struct ActionView {
    pub path: Seq<Seq<char>>,
    pub file: Option<u32>,
}

impl View for Action {
    type V = ActionView;

    open spec fn view(&self) -> ActionView {
        match self {
            Action::MakeDir { path } => ActionView { path: path.deep_view(), file: Option::None },
            Action::WriteFile { path, model_id } => ActionView {
                path: path.deep_view(),
                file: Option::Some(*model_id),
            },
        }
    }
}

pub open spec fn actions_view(s: Seq<Action>) -> Seq<ActionView> {
    s.map_values(|a: Action| a@)
}

pub open spec fn digit_char(n: nat) -> char {
    if n == 0 {
        '0'
    } else if n == 1 {
        '1'
    } else if n == 2 {
        '2'
    } else if n == 3 {
        '3'
    } else if n == 4 {
        '4'
    } else if n == 5 {
        '5'
    } else if n == 6 {
        '6'
    } else if n == 7 {
        '7'
    } else if n == 8 {
        '8'
    } else {
        '9'
    }
}

/// Decimal digits of a nonnegative integer, most significant first.
pub open spec fn dec_chars(n: nat) -> Seq<char>
    decreases n,
{
    if n < 10 {
        seq![digit_char(n)]
    } else {
        dec_chars(n / 10).push(digit_char(n % 10))
    }
}

/// The synthesized name of a group without a name attribute.
pub open spec fn group_name(child: u32) -> Seq<char> {
    "group_"@ + dec_chars(child as nat)
}

/// The directory name of a group: its transform's name attribute, or
/// the synthesized name.
pub open spec fn group_dir_name(name: Option<String>, child: u32) -> Seq<char> {
    match name {
        Option::Some(n) => n@,
        Option::None => group_name(child),
    }
}

/// The file (or animation directory) name of a shape: its transform's
/// name attribute or a synthesized name, with the mesh file suffix.
pub open spec fn model_file_name(name: Option<String>, child: u32) -> Seq<char> {
    match name {
        Option::Some(n) => n@ + ".obj"@,
        Option::None => "model_"@ + dec_chars(child as nat) + ".obj"@,
    }
}

/// The file name of one animation frame, from its declared frame
/// index.
pub open spec fn frame_file_name(idx: u32) -> Seq<char> {
    "frame_"@ + dec_chars(idx as nat) + ".obj"@
}

/// The plan of one transform node: its child must be a group or a
/// shape. `fuel` bounds the walk so that a malformed, cyclic node
/// list is reported instead of followed forever.
pub open spec fn spec_convert_transform(
    vox: VoxData,
    path: Seq<Seq<char>>,
    scene: int,
    fuel: nat,
) -> Result<Seq<ActionView>, Error>
    decreases fuel, 0int, 0int,
{
    if fuel == 0 {
        Result::Err(Error::InvalidSceneGraph)
    } else if !(0 <= scene < vox.scenes@.len()) {
        Result::Err(Error::InvalidSceneGraph)
    } else {
        match vox.scenes@[scene] {
            SceneNode::Transform { name, child } => {
                if !(child < vox.scenes@.len()) {
                    Result::Err(Error::InvalidSceneGraph)
                } else {
                    match vox.scenes@[child as int] {
                        SceneNode::Group { children } => {
                            let dir = path.push(group_dir_name(name, child));
                            match spec_convert_children(
                                vox,
                                dir,
                                children@,
                                0,
                                (fuel - 1) as nat,
                            ) {
                                Result::Ok(acts) => Result::Ok(
                                    seq![ActionView { path: dir, file: Option::None }] + acts,
                                ),
                                Result::Err(e) => Result::Err(e),
                            }
                        },
                        SceneNode::Shape { models } => {
                            if models@.len() == 1 {
                                if models@[0].model_id < vox.models@.len() {
                                    Result::Ok(
                                        seq![
                                            ActionView {
                                                path: path.push(model_file_name(name, child)),
                                                file: Option::Some(models@[0].model_id),
                                            },
                                        ],
                                    )
                                } else {
                                    Result::Err(Error::InvalidSceneGraph)
                                }
                            } else {
                                let dir = path.push(model_file_name(name, child));
                                match spec_convert_frames(vox, dir, models@, 0) {
                                    Result::Ok(acts) => Result::Ok(
                                        seq![ActionView { path: dir, file: Option::None }] + acts,
                                    ),
                                    Result::Err(e) => Result::Err(e),
                                }
                            }
                        },
                        SceneNode::Transform { .. } => Result::Err(Error::InvalidSceneGraph),
                    }
                }
            },
            _ => Result::Err(Error::InvalidSceneGraph),
        }
    }
}

/// The plans of a group's children from position `i` on, in declared
/// order.
pub open spec fn spec_convert_children(
    vox: VoxData,
    path: Seq<Seq<char>>,
    children: Seq<u32>,
    i: int,
    fuel: nat,
) -> Result<Seq<ActionView>, Error>
    decreases fuel, 1int, children.len() - i,
{
    if children.len() <= i {
        Result::Ok(Seq::empty())
    } else if i < 0 {
        Result::Err(Error::InvalidSceneGraph)
    } else {
        match spec_convert_transform(vox, path, children[i] as int, fuel) {
            Result::Ok(a1) => {
                match spec_convert_children(vox, path, children, i + 1, fuel) {
                    Result::Ok(a2) => Result::Ok(a1 + a2),
                    Result::Err(e) => Result::Err(e),
                }
            },
            Result::Err(e) => Result::Err(e),
        }
    }
}

/// The per-frame file plans of an animated shape, from frame `i` on:
/// one file per frame, named by its declared frame index; a frame
/// without a resolvable index is a structural error.
pub open spec fn spec_convert_frames(
    vox: VoxData,
    dir: Seq<Seq<char>>,
    models: Seq<ShapeModel>,
    i: int,
) -> Result<Seq<ActionView>, Error>
    decreases models.len() - i,
{
    if models.len() <= i {
        Result::Ok(Seq::empty())
    } else if i < 0 {
        Result::Err(Error::InvalidSceneGraph)
    } else {
        match models[i].frame_index {
            Option::Some(idx) => {
                if models[i].model_id < vox.models@.len() {
                    match spec_convert_frames(vox, dir, models, i + 1) {
                        Result::Ok(rest) => Result::Ok(
                            seq![
                                ActionView {
                                    path: dir.push(frame_file_name(idx)),
                                    file: Option::Some(models[i].model_id),
                                },
                            ] + rest,
                        ),
                        Result::Err(e) => Result::Err(e),
                    }
                } else {
                    Result::Err(Error::InvalidSceneGraph)
                }
            },
            Option::None => Result::Err(Error::InvalidSceneGraph),
        }
    }
}

/// The whole scene's plan: the walk starts at the root transform,
/// whose child must be a group; that root group's children write
/// directly into the output root.
pub open spec fn spec_convert_scene(vox: VoxData) -> Result<Seq<ActionView>, Error> {
    if vox.models@.len() == 0 {
        Result::Err(Error::EmptyModel)
    } else if vox.scenes@.len() == 0 {
        Result::Err(Error::InvalidSceneGraph)
    } else {
        match vox.scenes@[0] {
            SceneNode::Transform { name, child } => {
                if !(child < vox.scenes@.len()) {
                    Result::Err(Error::InvalidSceneGraph)
                } else {
                    match vox.scenes@[child as int] {
                        SceneNode::Group { children } => spec_convert_children(
                            vox,
                            Seq::empty(),
                            children@,
                            0,
                            vox.scenes@.len() as nat,
                        ),
                        _ => Result::Err(Error::InvalidSceneGraph),
                    }
                }
            },
            _ => Result::Err(Error::InvalidSceneGraph),
        }
    }
}

proof fn lemma_actions_view_concat(a: Seq<Action>, b: Seq<Action>)
    ensures
        actions_view(a + b) == actions_view(a) + actions_view(b),
{
    assert(actions_view(a + b) =~= actions_view(a) + actions_view(b));
}

/// Append one decimal digit.
fn append_digit(s: &mut String, d: u64)
    requires
        d < 10,
    ensures
        final(s)@ == old(s)@ + seq![digit_char(d as nat)],
{
    if d == 0 {
        proof {
            reveal_strlit("0");
        }
        s.append("0");
    } else if d == 1 {
        proof {
            reveal_strlit("1");
        }
        s.append("1");
    } else if d == 2 {
        proof {
            reveal_strlit("2");
        }
        s.append("2");
    } else if d == 3 {
        proof {
            reveal_strlit("3");
        }
        s.append("3");
    } else if d == 4 {
        proof {
            reveal_strlit("4");
        }
        s.append("4");
    } else if d == 5 {
        proof {
            reveal_strlit("5");
        }
        s.append("5");
    } else if d == 6 {
        proof {
            reveal_strlit("6");
        }
        s.append("6");
    } else if d == 7 {
        proof {
            reveal_strlit("7");
        }
        s.append("7");
    } else if d == 8 {
        proof {
            reveal_strlit("8");
        }
        s.append("8");
    } else {
        proof {
            reveal_strlit("9");
        }
        s.append("9");
    }
    proof {
        assert(final(s)@ =~= old(s)@ + seq![digit_char(d as nat)]);
    }
}

/// Append the decimal digits of `n`.
fn append_dec(s: &mut String, n: u64)
    ensures
        final(s)@ == old(s)@ + dec_chars(n as nat),
    decreases n,
{
    if n < 10 {
        append_digit(s, n);
    } else {
        append_dec(s, n / 10);
        append_digit(s, n % 10);
        proof {
            assert(final(s)@ =~= old(s)@ + dec_chars(n as nat));
        }
    }
}

/// The directory name of a group node.
fn make_group_dir_name(name: &Option<String>, child: u32) -> (r: String)
    ensures
        r@ == group_dir_name(*name, child),
{
    match name {
        Option::Some(n) => n.clone(),
        Option::None => {
            let mut s = String::from_str("group_");
            append_dec(&mut s, child as u64);
            s
        },
    }
}

/// The file (or animation directory) name of a shape node.
fn make_model_file_name(name: &Option<String>, child: u32) -> (r: String)
    ensures
        r@ == model_file_name(*name, child),
{
    match name {
        Option::Some(n) => {
            let mut s = n.clone();
            s.append(".obj");
            s
        },
        Option::None => {
            let mut s = String::from_str("model_");
            append_dec(&mut s, child as u64);
            s.append(".obj");
            s
        },
    }
}

/// The file name of one animation frame.
fn make_frame_file_name(idx: u32) -> (r: String)
    ensures
        r@ == frame_file_name(idx),
{
    let mut s = String::from_str("frame_");
    append_dec(&mut s, idx as u64);
    s.append(".obj");
    s
}

/// Copy a path and append one component.
fn push_component(path: &Vec<String>, component: String) -> (r: Vec<String>)
    ensures
        r.deep_view() == path.deep_view().push(component@),
{
    let mut r: Vec<String> = Vec::new();
    let mut i: usize = 0;
    while i < path.len()
        invariant
            i <= path@.len(),
            r@.len() == i,
            forall|j: int| 0 <= j < i ==> r@[j]@ == path@[j]@,
        decreases path@.len() - i,
    {
        r.push(path[i].clone());
        i += 1;
    }
    r.push(component);
    proof {
        assert(r.deep_view() =~= path.deep_view().push(component@));
    }
    r
}

/// Walk one transform node into its plan of actions.
pub fn convert_transform(vox: &VoxData, path: &Vec<String>, scene: u32, fuel: usize) -> (r: Result<
    Vec<Action>,
    Error,
>)
    ensures
        r is Ok ==> spec_convert_transform(*vox, path.deep_view(), scene as int, fuel as nat)
            == Result::<Seq<ActionView>, Error>::Ok(actions_view(r->Ok_0@)),
        r is Err ==> spec_convert_transform(*vox, path.deep_view(), scene as int, fuel as nat)
            == Result::<Seq<ActionView>, Error>::Err(r->Err_0),
    decreases fuel, 0int, 0int,
{
    if fuel == 0 {
        return Err(Error::InvalidSceneGraph);
    }
    if !((scene as usize) < vox.scenes.len()) {
        return Err(Error::InvalidSceneGraph);
    }
    match &vox.scenes[scene as usize] {
        SceneNode::Transform { name, child } => {
            let child: u32 = *child;
            if !((child as usize) < vox.scenes.len()) {
                return Err(Error::InvalidSceneGraph);
            }
            match &vox.scenes[child as usize] {
                SceneNode::Group { children } => {
                    let dir = push_component(path, make_group_dir_name(name, child));
                    match convert_children(vox, &dir, children, 0, fuel - 1) {
                        Ok(acts) => {
                            let mut out: Vec<Action> = Vec::new();
                            out.push(Action::MakeDir { path: dir });
                            let mut acts = acts;
                            let ghost acts0 = acts@;
                            out.append(&mut acts);
                            proof {
                                assert(actions_view(out@) =~= seq![
                                    ActionView {
                                        path: path.deep_view().push(
                                            group_dir_name(
                                                *name,
                                                child,
                                            ),
                                        ),
                                        file: Option::None,
                                    },
                                ] + actions_view(acts0));
                            }
                            Ok(out)
                        },
                        Err(e) => Err(e),
                    }
                },
                SceneNode::Shape { models } => {
                    if models.len() == 1 {
                        let model_id = models[0].model_id;
                        if !((model_id as usize) < vox.models.len()) {
                            return Err(Error::InvalidSceneGraph);
                        }
                        let file = push_component(path, make_model_file_name(name, child));
                        let mut out: Vec<Action> = Vec::new();
                        out.push(Action::WriteFile { path: file, model_id });
                        proof {
                            assert(actions_view(out@) =~= seq![
                                ActionView {
                                    path: path.deep_view().push(model_file_name(*name, child)),
                                    file: Option::Some(model_id),
                                },
                            ]);
                        }
                        Ok(out)
                    } else {
                        let dir = push_component(path, make_model_file_name(name, child));
                        match convert_frames(vox, &dir, models, 0) {
                            Ok(acts) => {
                                let mut out: Vec<Action> = Vec::new();
                                out.push(Action::MakeDir { path: dir });
                                let mut acts = acts;
                                let ghost acts0 = acts@;
                                out.append(&mut acts);
                                proof {
                                    assert(actions_view(out@) =~= seq![
                                        ActionView {
                                            path: path.deep_view().push(
                                                model_file_name(*name, child),
                                            ),
                                            file: Option::None,
                                        },
                                    ] + actions_view(acts0));
                                }
                                Ok(out)
                            },
                            Err(e) => Err(e),
                        }
                    }
                },
                SceneNode::Transform { .. } => Err(Error::InvalidSceneGraph),
            }
        },
        _ => Err(Error::InvalidSceneGraph),
    }
}

/// Walk a group's children from position `i` on.
fn convert_children(vox: &VoxData, path: &Vec<String>, children: &Vec<u32>, i: usize, fuel: usize) -> (r: Result<
    Vec<Action>,
    Error,
>)
    ensures
        r is Ok ==> spec_convert_children(
            *vox,
            path.deep_view(),
            children@,
            i as int,
            fuel as nat,
        ) == Result::<Seq<ActionView>, Error>::Ok(actions_view(r->Ok_0@)),
        r is Err ==> spec_convert_children(
            *vox,
            path.deep_view(),
            children@,
            i as int,
            fuel as nat,
        ) == Result::<Seq<ActionView>, Error>::Err(r->Err_0),
    decreases fuel, 1int, children@.len() - i,
{
    if children.len() <= i {
        let out: Vec<Action> = Vec::new();
        proof {
            assert(actions_view(out@) =~= Seq::<ActionView>::empty());
        }
        return Ok(out);
    }
    match convert_transform(vox, path, children[i], fuel) {
        Ok(a1) => {
            match convert_children(vox, path, children, i + 1, fuel) {
                Ok(a2) => {
                    let mut out = a1;
                    let ghost v1 = out@;
                    let mut a2 = a2;
                    let ghost v2 = a2@;
                    out.append(&mut a2);
                    proof {
                        lemma_actions_view_concat(v1, v2);
                    }
                    Ok(out)
                },
                Err(e) => Err(e),
            }
        },
        Err(e) => Err(e),
    }
}

/// Walk an animated shape's frames from position `i` on.
fn convert_frames(vox: &VoxData, dir: &Vec<String>, models: &Vec<ShapeModel>, i: usize) -> (r:
    Result<Vec<Action>, Error>)
    ensures
        r is Ok ==> spec_convert_frames(*vox, dir.deep_view(), models@, i as int) == Result::<
            Seq<ActionView>,
            Error,
        >::Ok(actions_view(r->Ok_0@)),
        r is Err ==> spec_convert_frames(*vox, dir.deep_view(), models@, i as int) == Result::<
            Seq<ActionView>,
            Error,
        >::Err(r->Err_0),
    decreases models@.len() - i,
{
    if models.len() <= i {
        let out: Vec<Action> = Vec::new();
        proof {
            assert(actions_view(out@) =~= Seq::<ActionView>::empty());
        }
        return Ok(out);
    }
    let m = models[i];
    match m.frame_index {
        Option::Some(idx) => {
            if !((m.model_id as usize) < vox.models.len()) {
                return Err(Error::InvalidSceneGraph);
            }
            match convert_frames(vox, dir, models, i + 1) {
                Ok(rest) => {
                    let file = push_component(dir, make_frame_file_name(idx));
                    let mut out: Vec<Action> = Vec::new();
                    out.push(Action::WriteFile { path: file, model_id: m.model_id });
                    let mut rest = rest;
                    let ghost restv = rest@;
                    out.append(&mut rest);
                    proof {
                        assert(actions_view(out@) =~= seq![
                            ActionView {
                                path: dir.deep_view().push(frame_file_name(idx)),
                                file: Option::Some(m.model_id),
                            },
                        ] + actions_view(restv));
                    }
                    Ok(out)
                },
                Err(e) => Err(e),
            }
        },
        Option::None => Err(Error::InvalidSceneGraph),
    }
}

/// Walk the whole scene graph into its plan of actions. The caller
/// executes the plan in order: it creates each directory, and for
/// each file it converts the named model and writes the mesh.
pub fn convert_scene(vox: &VoxData) -> (r: Result<Vec<Action>, Error>)
    ensures
        r is Ok ==> spec_convert_scene(*vox) == Result::<Seq<ActionView>, Error>::Ok(
            actions_view(r->Ok_0@),
        ),
        r is Err ==> spec_convert_scene(*vox) == Result::<Seq<ActionView>, Error>::Err(r->Err_0),
{
    if vox.models.len() == 0 {
        return Err(Error::EmptyModel);
    }
    if vox.scenes.len() == 0 {
        return Err(Error::InvalidSceneGraph);
    }
    match &vox.scenes[0] {
        SceneNode::Transform { name: _, child } => {
            let child: u32 = *child;
            if !((child as usize) < vox.scenes.len()) {
                return Err(Error::InvalidSceneGraph);
            }
            match &vox.scenes[child as usize] {
                SceneNode::Group { children } => {
                    let root: Vec<String> = Vec::new();
                    proof {
                        assert(root.deep_view() =~= Seq::<Seq<char>>::empty());
                    }
                    convert_children(vox, &root, children, 0, vox.scenes.len())
                },
                _ => Err(Error::InvalidSceneGraph),
            }
        },
        _ => Err(Error::InvalidSceneGraph),
    }
}

} // verus!
