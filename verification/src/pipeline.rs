//! Request preparation: pick the device, load and lay out the image, parse
//! the prompt points, failing fast before any model call would be made.

use crate::device::{device, Device};
use crate::loader::{
    image_load_ok, load_image, loaded_tensor_data, loaded_tensor_dims, rgb8_decode, ImageError,
    ImageTensor,
};
use crate::prompt::{
    describes_point_error, parse, wellformed_point, x_token, y_token, MalformedPointError,
    PromptPoint,
};
use vstd::prelude::*;

verus! {

/// Everything a model invocation needs, assembled and validated: the chosen
/// device, the preprocessed image tensor, the original image dimensions (for
/// rescaling results back, which is left to the consumer), the parsed prompt
/// points and the pass-through multimask flag.
#[derive(Debug)]
pub struct Request {
    pub device: Device,
    pub warn_cpu_fallback: bool,
    pub tensor: ImageTensor,
    pub initial_height: usize,
    pub initial_width: usize,
    pub points: Vec<PromptPoint>,
    pub multimask: bool,
}

/// Failure of request preparation.
#[derive(Debug)]
pub enum PrepareError {
    Image(ImageError),
    Prompt(MalformedPointError),
}

/// Assemble a model request: select the device, decode and preprocess the
/// image, then parse the prompt points. The first failure aborts the
/// preparation; image errors take precedence over prompt errors.
pub fn prepare(
    image_bytes: &Vec<u8>,
    resize_longest: Option<usize>,
    positive: &Vec<String>,
    negative: &Vec<String>,
    prefer_cpu: bool,
    multimask: bool,
) -> (r: Result<Request, PrepareError>)
    requires
        resize_longest matches Some(t) ==> t as int <= u32::MAX as int,
        resize_longest matches Some(t) ==> 3 * (t as int) * (t as int) <= usize::MAX as int,
    ensures
        ({
            let all = positive.deep_view() + negative.deep_view();
            &&& (r is Ok <==> image_load_ok(image_bytes@, resize_longest) && (forall|i: int|
                0 <= i < all.len() ==> wellformed_point(all[i])))
            &&& (r matches Ok(req) ==> {
                &&& prefer_cpu ==> req.device == Device::Cpu && !req.warn_cpu_fallback
                &&& !prefer_cpu ==> req.device == Device::Cpu || req.device == Device::Accelerator(
                    0u32,
                )
                &&& !prefer_cpu ==> (req.warn_cpu_fallback <==> req.device == Device::Cpu)
                &&& rgb8_decode(image_bytes@) matches Some(d) && req.initial_height == d.0
                    && req.initial_width == d.1
                &&& (req.tensor.height as nat, req.tensor.width as nat) == loaded_tensor_dims(
                    image_bytes@,
                    resize_longest,
                )
                &&& req.tensor.data@ == loaded_tensor_data(image_bytes@, resize_longest)
                &&& req.tensor.wf()
                &&& req.points.len() == all.len()
                &&& (forall|i: int| 0 <= i < all.len() ==> {
                    &&& (#[trigger] req.points[i]).x@ == x_token(all[i])
                    &&& req.points[i].y@ == y_token(all[i])
                    &&& req.points[i].wf()
                    &&& req.points[i].is_positive == (i < positive.len())
                })
                &&& req.multimask == multimask
            })
            &&& (r matches Err(e) ==> !image_load_ok(image_bytes@, resize_longest) ==> {
                e matches PrepareError::Image(ie) && (ie is Decode <==> rgb8_decode(image_bytes@)
                    is None)
            })
            &&& (!image_load_ok(image_bytes@, resize_longest) ==> r is Err)
            &&& (r matches Err(e) ==> image_load_ok(image_bytes@, resize_longest) ==> {
                e matches PrepareError::Prompt(pe) && (exists|k: int| {
                    &&& 0 <= k < all.len()
                    &&& !wellformed_point(#[trigger] all[k])
                    &&& (forall|j: int| 0 <= j < k ==> wellformed_point(all[j]))
                    &&& describes_point_error(pe, all[k])
                })
            })
        }),
{
    let selection = device(prefer_cpu);
    let loaded = match load_image(image_bytes, resize_longest) {
        Ok(loaded) => loaded,
        Err(e) => {
            return Err(PrepareError::Image(e));
        },
    };
    let points = match parse(positive, negative) {
        Ok(points) => points,
        Err(e) => {
            return Err(PrepareError::Prompt(e));
        },
    };
    Ok(
        Request {
            device: selection.0,
            warn_cpu_fallback: selection.1,
            tensor: loaded.0,
            initial_height: loaded.1,
            initial_width: loaded.2,
            points,
            multimask,
        },
    )
}

} // verus!
