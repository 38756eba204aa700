//! The Python scripts that the backends run.

use vstd::prelude::*;

verus! {

/// Tells which versions of RapidOCR and its runtime are installed; takes the language.
pub const RAPIDOCR_CHECK_SCRIPT: &'static str = r#"
import importlib.metadata as metadata
import json
import sys

try:
    import onnxruntime  # noqa: F401
    from rapidocr import RapidOCR

    lang_type = sys.argv[1] if len(sys.argv) > 1 else "ch"
    engine = RapidOCR(params={"Rec.lang_type": lang_type})
    payload = {
        "rapidocr": metadata.version("rapidocr"),
        "onnxruntime": metadata.version("onnxruntime"),
        "lang_type": str(getattr(engine.cfg.Rec, "lang_type", lang_type)),
    }
    print("__CODEX_RAPIDOCR_JSON__" + json.dumps(payload, ensure_ascii=False))
except Exception as exc:
    payload = {"error": f"{type(exc).__name__}: {exc}"}
    print("__CODEX_RAPIDOCR_JSON__" + json.dumps(payload, ensure_ascii=False))
    raise
"#;

/// Recognises the texts in a frame with RapidOCR; takes the language and the path of the frame.
pub const RAPIDOCR_RUN_SCRIPT: &'static str = r#"
import json
import sys

from rapidocr import RapidOCR

def as_list(value):
    if value is None:
        return []
    if hasattr(value, "tolist"):
        return value.tolist()
    return list(value)

if len(sys.argv) != 3:
    raise SystemExit("expected rapidocr language and image path arguments")
lang_type = sys.argv[1]
image_path = sys.argv[2]
engine = RapidOCR(params={"Rec.lang_type": lang_type})
result = engine(image_path)
payload = {
    "boxes": as_list(getattr(result, "boxes", None)),
    "txts": as_list(getattr(result, "txts", None)),
    "scores": as_list(getattr(result, "scores", None)),
    "elapse": getattr(result, "elapse", None),
    "lang_type": str(getattr(engine.cfg.Rec, "lang_type", lang_type)),
}
print("__CODEX_RAPIDOCR_JSON__" + json.dumps(payload, ensure_ascii=False))
"#;

/// Tells which versions of PaddleOCR and its runtime are installed and what CUDA offers.
pub const PADDLEOCR_CHECK_SCRIPT: &'static str = r#"
import importlib.metadata as metadata
import json

try:
    import paddleocr
    from paddleocr import PaddleOCR  # noqa: F401

    paddleocr_version = getattr(paddleocr, "__version__", None)
    if paddleocr_version is None:
        try:
            paddleocr_version = metadata.version("paddleocr")
        except Exception:
            paddleocr_version = "unknown"
    payload = {
        "paddleocr": paddleocr_version,
    }
    try:
        import paddle

        payload["paddle"] = getattr(paddle, "__version__", "unknown")
        payload["cuda_compiled"] = bool(getattr(paddle, "is_compiled_with_cuda", lambda: False)())
        try:
            payload["cuda_device_count"] = int(paddle.device.cuda.device_count())
        except Exception:
            payload["cuda_device_count"] = None
    except Exception as exc:
        payload["paddle_error"] = f"{type(exc).__name__}: {exc}"
    print("__CODEX_PADDLEOCR_JSON__" + json.dumps(payload, ensure_ascii=False))
except Exception as exc:
    payload = {"error": f"{type(exc).__name__}: {exc}"}
    print("__CODEX_PADDLEOCR_JSON__" + json.dumps(payload, ensure_ascii=False))
    raise
"#;

/// Recognises the texts in a frame with PaddleOCR; takes the language, the device, the engine, the
/// model version and the path of the frame.
pub const PADDLEOCR_RUN_SCRIPT: &'static str = r#"
import json
import sys

from paddleocr import PaddleOCR

PREFIX = "__CODEX_PADDLEOCR_JSON__"

def optional_arg(index):
    if len(sys.argv) <= index:
        return None
    value = str(sys.argv[index]).strip()
    return value or None

def as_plain(value):
    if value is None:
        return None
    if hasattr(value, "tolist"):
        return value.tolist()
    if hasattr(value, "item") and not isinstance(value, (list, tuple, dict, str, bytes)):
        try:
            return value.item()
        except Exception:
            pass
    if isinstance(value, dict):
        return {str(k): as_plain(v) for k, v in value.items()}
    if isinstance(value, (list, tuple)):
        return [as_plain(item) for item in value]
    return value

def is_number(value):
    return isinstance(value, (int, float)) and not isinstance(value, bool)

def box_to_poly(box):
    box = as_plain(box)
    if isinstance(box, list) and len(box) == 4 and all(is_number(item) for item in box):
        x1, y1, x2, y2 = box
        return [[x1, y1], [x2, y1], [x2, y2], [x1, y2]]
    return box

def append_observation(payload, box, text, score):
    if text is None:
        return
    text = str(text).strip()
    if not text:
        return
    payload["boxes"].append(box_to_poly(box) if box is not None else [[0, 0], [0, 0], [0, 0], [0, 0]])
    payload["txts"].append(text)
    try:
        payload["scores"].append(float(score))
    except Exception:
        payload["scores"].append(0.0)

def extract_v3_result(result, payload):
    data = result if isinstance(result, dict) else getattr(result, "json", None)
    if callable(data):
        data = data()
    data = as_plain(data)
    if isinstance(data, dict) and "res" in data and isinstance(data["res"], dict):
        data = data["res"]
    if not isinstance(data, dict):
        return False
    texts = data.get("rec_texts") or []
    scores = data.get("rec_scores") or []
    boxes = data.get("rec_polys") or data.get("dt_polys") or data.get("rec_boxes") or []
    for index, text in enumerate(texts):
        append_observation(
            payload,
            boxes[index] if index < len(boxes) else None,
            text,
            scores[index] if index < len(scores) else 0.0,
        )
    return True

def extract_legacy_result(results, payload):
    def looks_like_line(item):
        return (
            isinstance(item, (list, tuple))
            and len(item) >= 2
            and isinstance(item[1], (list, tuple))
            and len(item[1]) >= 2
            and isinstance(item[1][0], str)
        )

    if isinstance(results, list) and any(looks_like_line(item) for item in results):
        pages = [results]
    else:
        pages = results or []
    for page in pages:
        rows = page if isinstance(page, list) else []
        for item in rows:
            if not looks_like_line(item):
                continue
            append_observation(payload, item[0], item[1][0], item[1][1])

if len(sys.argv) != 6:
    raise SystemExit("expected paddleocr language, device, engine, OCR version, and image path arguments")

lang = optional_arg(1)
device = optional_arg(2)
engine = optional_arg(3)
ocr_version = optional_arg(4)
image_path = sys.argv[5]

common_kwargs = {
    "use_doc_orientation_classify": False,
    "use_doc_unwarping": False,
    "use_textline_orientation": False,
}
if lang:
    common_kwargs["lang"] = lang
if device:
    common_kwargs["device"] = device
if engine:
    common_kwargs["engine"] = engine
if ocr_version:
    common_kwargs["ocr_version"] = ocr_version

payload = {
    "boxes": [],
    "txts": [],
    "scores": [],
    "lang": lang,
    "device": device,
    "engine": engine,
    "ocr_version": ocr_version,
}

try:
    ocr = PaddleOCR(**common_kwargs)
    if hasattr(ocr, "predict"):
        for item in ocr.predict(
            image_path,
            use_doc_orientation_classify=False,
            use_doc_unwarping=False,
            use_textline_orientation=False,
        ):
            extract_v3_result(item, payload)
    else:
        extract_legacy_result(ocr.ocr(image_path, cls=False), payload)
except TypeError:
    legacy_kwargs = {}
    if lang:
        legacy_kwargs["lang"] = lang
    if device:
        legacy_kwargs["use_gpu"] = device.startswith("gpu")
    ocr = PaddleOCR(use_angle_cls=False, **legacy_kwargs)
    extract_legacy_result(ocr.ocr(image_path, cls=False), payload)

print(PREFIX + json.dumps(payload, ensure_ascii=False))
"#;

} // verus!
