//! HTML fragments of the studio pages whose content the library decides:
//! the model picker, the inference input sections, error boxes, and the
//! architect form's default layer rows.

use vstd::prelude::*;

use crate::render::{html_escape_spec, push_escaped};
use crate::text::{chars_to_string, decimal_digits, push_str_chars, push_usize_chars, str_eq,
    string_views};

verus! {

/// The default two-row layer table offered before any architecture is
/// saved.
pub open spec fn default_layer_rows_spec() -> Seq<char> {
    "<tr id=\"lr-1\"><td>1</td><td><input type=\"number\" class=\"neurons-input\" data-field=\"neurons\" value=\"8\" min=\"1\"></td><td><select class=\"act-select\" data-field=\"activation\"><option value=\"sigmoid\">Sigmoid</option><option value=\"relu\" selected>Relu</option><option value=\"identity\">Identity</option><option value=\"softmax\">Softmax</option></select></td><td><button type=\"button\" class=\"btn btn-secondary btn-sm\" onclick=\"removeLayer(1)\">Remove</button></td></tr>\n<tr id=\"lr-2\"><td>2</td><td><input type=\"number\" class=\"neurons-input\" data-field=\"neurons\" value=\"2\" min=\"1\"></td><td><select class=\"act-select\" data-field=\"activation\"><option value=\"sigmoid\">Sigmoid</option><option value=\"relu\">Relu</option><option value=\"identity\">Identity</option><option value=\"softmax\" selected>Softmax</option></select></td><td><button type=\"button\" class=\"btn btn-secondary btn-sm\" onclick=\"removeLayer(2)\">Remove</button></td></tr>"@
}

/// Returns the default layer rows for the architect form.
pub fn default_layer_rows() -> (r: String)
    ensures
        r@ == default_layer_rows_spec(),
{
    "<tr id=\"lr-1\"><td>1</td><td><input type=\"number\" class=\"neurons-input\" data-field=\"neurons\" value=\"8\" min=\"1\"></td><td><select class=\"act-select\" data-field=\"activation\"><option value=\"sigmoid\">Sigmoid</option><option value=\"relu\" selected>Relu</option><option value=\"identity\">Identity</option><option value=\"softmax\">Softmax</option></select></td><td><button type=\"button\" class=\"btn btn-secondary btn-sm\" onclick=\"removeLayer(1)\">Remove</button></td></tr>\n<tr id=\"lr-2\"><td>2</td><td><input type=\"number\" class=\"neurons-input\" data-field=\"neurons\" value=\"2\" min=\"1\"></td><td><select class=\"act-select\" data-field=\"activation\"><option value=\"sigmoid\">Sigmoid</option><option value=\"relu\">Relu</option><option value=\"identity\">Identity</option><option value=\"softmax\" selected>Softmax</option></select></td><td><button type=\"button\" class=\"btn btn-secondary btn-sm\" onclick=\"removeLayer(2)\">Remove</button></td></tr>".to_owned()
}

/// An inference error box; the message is trusted HTML and kept as is.
pub open spec fn error_html_spec(msg: Seq<char>) -> Seq<char> {
    "<div class=\"result-card\"><h2>Error</h2><div class=\"error-box\">"@ + msg
        + "</div></div>"@
}

/// Wraps an inference error message in the result-card error box.
pub fn error_html(msg: &str) -> (r: String)
    ensures
        r@ == error_html_spec(msg@),
{
    let mut out: Vec<char> = Vec::new();
    push_str_chars(&mut out, "<div class=\"result-card\"><h2>Error</h2><div class=\"error-box\">");
    push_str_chars(&mut out, msg);
    push_str_chars(&mut out, "</div></div>");
    chars_to_string(&out)
}

/// One `<option>` of the model picker, marked selected when the name
/// matches, the name escaped in both positions.
pub open spec fn option_line_spec(name: Seq<char>, selected: bool) -> Seq<char> {
    "<option value=\""@ + html_escape_spec(name) + "\""@ + (if selected {
        " selected"@
    } else {
        Seq::<char>::empty()
    }) + ">"@ + html_escape_spec(name) + "</option>"@
}

/// The model picker's options, one line per model in order; a notice
/// when there are none.
pub open spec fn model_options_spec(models: Seq<Seq<char>>, selected: Seq<char>) -> Seq<char>
    decreases models.len(),
{
    if models.len() == 0 {
        Seq::<char>::empty()
    } else if models.len() == 1 {
        option_line_spec(models[0], models[0] == selected)
    } else {
        option_line_spec(models[0], models[0] == selected) + "\n"@ + model_options_spec(
            models.skip(1),
            selected,
        )
    }
}

/// Appends one model picker option to `out`.
fn push_option_line(out: &mut Vec<char>, name: &str, selected: bool)
    ensures
        final(out)@ == old(out)@ + option_line_spec(name@, selected),
{
    push_str_chars(out, "<option value=\"");
    push_escaped(out, name);
    push_str_chars(out, "\"");
    if selected {
        push_str_chars(out, " selected");
    }
    push_str_chars(out, ">");
    push_escaped(out, name);
    push_str_chars(out, "</option>");
}

/// Builds the `<option>` list for the saved-model picker, marking
/// `selected`; with no models, a disabled placeholder row.
pub fn build_model_options(models: &Vec<String>, selected: &str) -> (r: String)
    ensures
        models@.len() == 0 ==> r@
            == "<option disabled>No models found in trained_models/</option>"@,
        models@.len() > 0 ==> r@ == model_options_spec(string_views(models@), selected@),
{
    let n = models.len();
    if n == 0 {
        return "<option disabled>No models found in trained_models/</option>".to_owned();
    }
    let ghost views = string_views(models@);
    let mut out: Vec<char> = Vec::new();
    let mut i: usize = 0;
    proof {
        assert(views.skip(0) =~= views);
        assert(out@ + model_options_spec(views, selected@) =~= model_options_spec(
            views,
            selected@,
        ));
    }
    loop
        invariant_except_break
            n == models@.len(),
            n > 0,
            views == string_views(models@),
            i < n,
            model_options_spec(views, selected@) == out@ + model_options_spec(
                views.skip(i as int),
                selected@,
            ),
        ensures
            out@ == model_options_spec(views, selected@),
        decreases n - i,
    {
        let name = &models[i];
        let sel = str_eq(name.as_str(), selected);
        proof {
            assert(views.skip(i as int)[0] == models@[i as int]@);
        }
        push_option_line(&mut out, name.as_str(), sel);
        if i + 1 == n {
            proof {
                assert(views.skip(i as int).len() == 1);
            }
            break ;
        }
        push_str_chars(&mut out, "\n");
        proof {
            assert(views.skip(i as int).skip(1) =~= views.skip(i as int + 1));
        }
        i += 1;
    }
    chars_to_string(&out)
}

/// The numeric input section: a textarea for comma-separated values,
/// paired with its form encoding.
pub fn numeric_section() -> (r: (&'static str, String))
    ensures
        r.0@ == "application/x-www-form-urlencoded"@,
        r.1@
            == "<label for=\"inputs\">Input values</label>\n<textarea id=\"inputs\" name=\"inputs\" rows=\"4\"\n  placeholder=\"Enter comma-separated numbers, e.g.:&#10;0.0, 1.0\"></textarea>\n<p class=\"hint\">Comma-separated floats — one value per input neuron.</p>"@,
{
    (
        "application/x-www-form-urlencoded",
        "<label for=\"inputs\">Input values</label>\n<textarea id=\"inputs\" name=\"inputs\" rows=\"4\"\n  placeholder=\"Enter comma-separated numbers, e.g.:&#10;0.0, 1.0\"></textarea>\n<p class=\"hint\">Comma-separated floats — one value per input neuron.</p>".to_owned(),
    )
}

/// The image-upload section for a model taking `width`×`height` input
/// in the given colour mode, paired with its multipart form encoding.
pub open spec fn image_section_spec(width: u32, height: u32, color_mode: Seq<char>) -> Seq<char> {
    "<label for=\"image_file\">Upload image</label>\n<input type=\"file\" id=\"image_file\" name=\"image_file\" accept=\"image/png,image/jpeg,image/bmp,image/gif\" style=\"margin-bottom:10px\">\n<div id=\"preview-wrap\" style=\"display:none;margin-bottom:10px\">\n  <img id=\"preview\" style=\"max-width:140px;image-rendering:pixelated;border-radius:6px;border:1.5px solid #dde2ec\">\n</div>\n<p class=\"hint\">"@
        + color_mode + " image — will be resized to "@ + decimal_digits(width as nat) + "x"@
        + decimal_digits(height as nat) + " and normalized.</p>\n<script>\ndocument.getElementById('image_file').addEventListener('change', function() {\n  var img = document.getElementById('preview');\n  img.src = URL.createObjectURL(this.files[0]);\n  document.getElementById('preview-wrap').style.display = 'block';\n});\n</script>"@
}

/// Builds the image-upload input section.
pub fn image_section(width: u32, height: u32, color_mode: &str) -> (r: (&'static str, String))
    ensures
        r.0@ == "multipart/form-data"@,
        r.1@ == image_section_spec(width, height, color_mode@),
{
    let mut out: Vec<char> = Vec::new();
    push_str_chars(
        &mut out,
        "<label for=\"image_file\">Upload image</label>\n<input type=\"file\" id=\"image_file\" name=\"image_file\" accept=\"image/png,image/jpeg,image/bmp,image/gif\" style=\"margin-bottom:10px\">\n<div id=\"preview-wrap\" style=\"display:none;margin-bottom:10px\">\n  <img id=\"preview\" style=\"max-width:140px;image-rendering:pixelated;border-radius:6px;border:1.5px solid #dde2ec\">\n</div>\n<p class=\"hint\">",
    );
    push_str_chars(&mut out, color_mode);
    push_str_chars(&mut out, " image — will be resized to ");
    push_usize_chars(&mut out, width as usize);
    push_str_chars(&mut out, "x");
    push_usize_chars(&mut out, height as usize);
    push_str_chars(
        &mut out,
        " and normalized.</p>\n<script>\ndocument.getElementById('image_file').addEventListener('change', function() {\n  var img = document.getElementById('preview');\n  img.src = URL.createObjectURL(this.files[0]);\n  document.getElementById('preview-wrap').style.display = 'block';\n});\n</script>",
    );
    ("multipart/form-data", chars_to_string(&out))
}

} // verus!
